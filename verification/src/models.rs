//! The records that leave the intake: log entries, metrics and their values.
use vstd::prelude::*;

use crate::keymap::KeyMap;
use crate::time::Timestamp;

verus! {

#[derive(Debug, Clone, Copy, PartialEq, Eq, Structural)]
pub enum LogLevel {
    Trace,
    Debug,
    Info,
    Warn,
    Error,
    Fatal,
}

impl View for LogLevel {
    type V = LogLevel;

    open spec fn view(&self) -> LogLevel {
        *self
    }
}

impl LogLevel {
    /// The level that a byte stands for.
    pub open spec fn of(b: u8) -> Option<LogLevel> {
        match b {
            0 => Some(LogLevel::Trace),
            1 => Some(LogLevel::Debug),
            2 => Some(LogLevel::Info),
            3 => Some(LogLevel::Warn),
            4 => Some(LogLevel::Error),
            5 => Some(LogLevel::Fatal),
            _ => None,
        }
    }

    pub fn from_u8(b: u8) -> (r: Option<Self>)
        ensures
            r == LogLevel::of(b),
    {
        match b {
            0 => Some(LogLevel::Trace),
            1 => Some(LogLevel::Debug),
            2 => Some(LogLevel::Info),
            3 => Some(LogLevel::Warn),
            4 => Some(LogLevel::Error),
            5 => Some(LogLevel::Fatal),
            _ => None,
        }
    }
}

#[derive(Debug, Clone, Copy, PartialEq, Eq, Structural)]
pub enum SpanKind {
    Internal,
    Server,
    Client,
    Producer,
    Consumer,
}

impl SpanKind {
    /// The kind that a byte stands for.
    pub open spec fn of(b: u8) -> Option<SpanKind> {
        match b {
            0 => Some(SpanKind::Internal),
            1 => Some(SpanKind::Server),
            2 => Some(SpanKind::Client),
            3 => Some(SpanKind::Producer),
            4 => Some(SpanKind::Consumer),
            _ => None,
        }
    }

    pub fn from_u8(b: u8) -> (r: Option<Self>)
        ensures
            r == SpanKind::of(b),
    {
        match b {
            0 => Some(SpanKind::Internal),
            1 => Some(SpanKind::Server),
            2 => Some(SpanKind::Client),
            3 => Some(SpanKind::Producer),
            4 => Some(SpanKind::Consumer),
            _ => None,
        }
    }
}

#[derive(Debug, Clone, Copy, PartialEq, Eq, Structural)]
pub enum SpanStatusCode {
    Unset,
    Okay,
    Error,
}

impl SpanStatusCode {
    /// The status that a byte stands for.
    pub open spec fn of(b: u8) -> Option<SpanStatusCode> {
        match b {
            0 => Some(SpanStatusCode::Unset),
            1 => Some(SpanStatusCode::Okay),
            2 => Some(SpanStatusCode::Error),
            _ => None,
        }
    }

    pub fn from_u8(b: u8) -> (r: Option<Self>)
        ensures
            r == SpanStatusCode::of(b),
    {
        match b {
            0 => Some(SpanStatusCode::Unset),
            1 => Some(SpanStatusCode::Okay),
            2 => Some(SpanStatusCode::Error),
            _ => None,
        }
    }
}

#[derive(Debug, Clone, Copy, PartialEq, Eq, Structural)]
pub enum MetricKind {
    Gauge,
    Sum,
    Histogram,
}

/// A 32-bit IEC `REAL`, by the bits of its IEEE 754 encoding.
#[derive(Debug, Clone, Copy, PartialEq, Eq, Structural)]
pub struct Real(pub u32);

impl Real {
    /// Neither infinite nor NaN: the exponent is not all ones.
    pub open spec fn finite(self) -> bool {
        (self.0 / 0x80_0000) % 0x100 != 0xFF
    }

    pub fn is_finite(&self) -> (r: bool)
        ensures
            r == self.finite(),
    {
        (self.0 / 0x80_0000) % 0x100 != 0xFF
    }
}

/// A 64-bit IEC `LREAL`, by the bits of its IEEE 754 encoding.
#[derive(Debug, Clone, Copy, PartialEq, Eq, Structural)]
pub struct Lreal(pub u64);

impl View for Lreal {
    type V = Lreal;

    open spec fn view(&self) -> Lreal {
        *self
    }
}

impl Lreal {
    /// Neither infinite nor NaN: the exponent is not all ones.
    pub open spec fn finite(self) -> bool {
        (self.0 / 0x10_0000_0000_0000) % 0x800 != 0x7FF
    }

    pub fn is_finite(&self) -> (r: bool)
        ensures
            r == self.finite(),
    {
        (self.0 / 0x10_0000_0000_0000) % 0x800 != 0x7FF
    }
}

/// A JSON scalar. An integer is `Unsigned` when it is not negative.
#[derive(Debug, PartialEq, Eq)]
pub enum JsonScalar {
    Null,
    Bool(bool),
    Unsigned(u64),
    Negative(i64),
    Real(Real),
    Lreal(Lreal),
    Text(String),
}

/// A [`JsonScalar`] with its text as a character sequence.
pub enum JsonScalarView {
    Null,
    Bool(bool),
    Unsigned(u64),
    Negative(i64),
    Real(Real),
    Lreal(Lreal),
    Text(Seq<char>),
}

impl View for JsonScalar {
    type V = JsonScalarView;

    open spec fn view(&self) -> JsonScalarView {
        match *self {
            JsonScalar::Null => JsonScalarView::Null,
            JsonScalar::Bool(b) => JsonScalarView::Bool(b),
            JsonScalar::Unsigned(n) => JsonScalarView::Unsigned(n),
            JsonScalar::Negative(n) => JsonScalarView::Negative(n),
            JsonScalar::Real(x) => JsonScalarView::Real(x),
            JsonScalar::Lreal(x) => JsonScalarView::Lreal(x),
            JsonScalar::Text(s) => JsonScalarView::Text(s@),
        }
    }
}

impl JsonScalarView {
    pub open spec fn of_int(n: i64) -> JsonScalarView {
        if n >= 0 { JsonScalarView::Unsigned(n as u64) } else { JsonScalarView::Negative(n) }
    }

    /// JSON has no infinities and no NaN: they become `null`.
    pub open spec fn of_real(x: Real) -> JsonScalarView {
        if x.finite() { JsonScalarView::Real(x) } else { JsonScalarView::Null }
    }

    /// JSON has no infinities and no NaN: they become `null`.
    pub open spec fn of_lreal(x: Lreal) -> JsonScalarView {
        if x.finite() { JsonScalarView::Lreal(x) } else { JsonScalarView::Null }
    }
}

impl JsonScalar {
    pub fn from_int(n: i64) -> (r: Self)
        ensures
            r@ == JsonScalarView::of_int(n),
    {
        if n >= 0 {
            JsonScalar::Unsigned(n as u64)
        } else {
            JsonScalar::Negative(n)
        }
    }

    pub fn from_real(x: Real) -> (r: Self)
        ensures
            r@ == JsonScalarView::of_real(x),
    {
        if x.is_finite() {
            JsonScalar::Real(x)
        } else {
            JsonScalar::Null
        }
    }

    pub fn from_lreal(x: Lreal) -> (r: Self)
        ensures
            r@ == JsonScalarView::of_lreal(x),
    {
        if x.is_finite() {
            JsonScalar::Lreal(x)
        } else {
            JsonScalar::Null
        }
    }
}

/// A log entry with where it came from.
#[derive(Debug)]
pub struct LogEntry {
    pub source: String,
    pub hostname: String,
    pub message: String,
    pub logger: String,
    pub level: LogLevel,
    pub plc_timestamp: Timestamp,
    pub clock_timestamp: Timestamp,
    pub task_index: i32,
    pub task_name: String,
    pub task_cycle_counter: u32,
    pub app_name: String,
    pub project_name: String,
    pub online_change_count: u32,
    pub arguments: KeyMap<usize, JsonScalar>,
    pub context: KeyMap<String, JsonScalar>,
    pub ams_net_id: String,
    pub ams_source_port: u16,
    /// All zeros: no trace.
    pub trace_id: [u8; 16],
    /// All zeros: no span.
    pub span_id: [u8; 8],
}

pub struct LogEntryView {
    pub source: Seq<char>,
    pub hostname: Seq<char>,
    pub message: Seq<char>,
    pub logger: Seq<char>,
    pub level: LogLevel,
    pub plc_timestamp: Timestamp,
    pub clock_timestamp: Timestamp,
    pub task_index: i32,
    pub task_name: Seq<char>,
    pub task_cycle_counter: u32,
    pub app_name: Seq<char>,
    pub project_name: Seq<char>,
    pub online_change_count: u32,
    pub arguments: Map<usize, JsonScalarView>,
    pub context: Map<Seq<char>, JsonScalarView>,
    pub ams_net_id: Seq<char>,
    pub ams_source_port: u16,
    pub trace_id: Seq<u8>,
    pub span_id: Seq<u8>,
}

impl View for LogEntry {
    type V = LogEntryView;

    open spec fn view(&self) -> LogEntryView {
        LogEntryView {
            source: self.source@,
            hostname: self.hostname@,
            message: self.message@,
            logger: self.logger@,
            level: self.level,
            plc_timestamp: self.plc_timestamp,
            clock_timestamp: self.clock_timestamp,
            task_index: self.task_index,
            task_name: self.task_name@,
            task_cycle_counter: self.task_cycle_counter,
            app_name: self.app_name@,
            project_name: self.project_name@,
            online_change_count: self.online_change_count,
            arguments: self.arguments@,
            context: self.context@,
            ams_net_id: self.ams_net_id@,
            ams_source_port: self.ams_source_port,
            trace_id: self.trace_id@,
            span_id: self.span_id@,
        }
    }
}

impl LogEntryView {
    /// An entry of which nothing more is known.
    pub open spec fn plain(
        source: Seq<char>,
        hostname: Seq<char>,
        message: Seq<char>,
        logger: Seq<char>,
        level: LogLevel,
        now: Timestamp,
    ) -> LogEntryView {
        LogEntryView {
            source,
            hostname,
            message,
            logger,
            level,
            plc_timestamp: now,
            clock_timestamp: now,
            task_index: 0,
            task_name: Seq::empty(),
            task_cycle_counter: 0,
            app_name: Seq::empty(),
            project_name: Seq::empty(),
            online_change_count: 0,
            arguments: Map::empty(),
            context: Map::empty(),
            ams_net_id: Seq::empty(),
            ams_source_port: 0,
            trace_id: Seq::new(16, |i: int| 0u8),
            span_id: Seq::new(8, |i: int| 0u8),
        }
    }
}

impl LogEntry {
    pub fn new(
        source: String,
        hostname: String,
        message: String,
        logger: String,
        level: LogLevel,
        now: Timestamp,
    ) -> (r: Self)
        ensures
            r@ == LogEntryView::plain(source@, hostname@, message@, logger@, level, now),
    {
        let r = LogEntry {
            source,
            hostname,
            message,
            logger,
            level,
            plc_timestamp: now,
            clock_timestamp: now,
            task_index: 0,
            task_name: String::new(),
            task_cycle_counter: 0,
            app_name: String::new(),
            project_name: String::new(),
            online_change_count: 0,
            arguments: KeyMap::new(),
            context: KeyMap::new(),
            ams_net_id: String::new(),
            ams_source_port: 0,
            trace_id: [0; 16],
            span_id: [0; 8],
        };
        proof {
            let plain = LogEntryView::plain(source@, hostname@, message@, logger@, level, now);
            assert(r@.trace_id =~= plain.trace_id);
            assert(r@.span_id =~= plain.span_id);
            assert(r@.task_name =~= plain.task_name);
            assert(r@.app_name =~= plain.app_name);
            assert(r@.project_name =~= plain.project_name);
            assert(r@.ams_net_id =~= plain.ams_net_id);
        }
        r
    }
}

/// The value of a metric.
#[derive(Debug, Clone, Copy, PartialEq, Eq, Structural)]
pub enum MetricValue {
    Lreal(Lreal),
    Signed(i64),
    Unsigned(u64),
    /// The first number divided by the second.
    Ratio(u64, u64),
}

/// A metric with where it came from.
#[derive(Debug)]
pub struct MetricEntry {
    pub name: String,
    pub description: String,
    pub unit: String,
    pub kind: MetricKind,
    pub value: MetricValue,
    pub timestamp: Timestamp,
    pub source: String,
    pub hostname: String,
    pub ams_net_id: String,
    pub ams_source_port: u16,
    pub task_index: i32,
    pub task_name: String,
    pub task_cycle_counter: u32,
    pub app_name: String,
    pub project_name: String,
    pub attributes: KeyMap<String, JsonScalar>,
    pub histogram_bounds: Vec<MetricValue>,
    pub histogram_counts: Vec<u64>,
    pub histogram_count: u64,
    pub histogram_sum: MetricValue,
    pub is_monotonic: bool,
}

pub struct MetricEntryView {
    pub name: Seq<char>,
    pub description: Seq<char>,
    pub unit: Seq<char>,
    pub kind: MetricKind,
    pub value: MetricValue,
    pub timestamp: Timestamp,
    pub source: Seq<char>,
    pub hostname: Seq<char>,
    pub ams_net_id: Seq<char>,
    pub ams_source_port: u16,
    pub task_index: i32,
    pub task_name: Seq<char>,
    pub task_cycle_counter: u32,
    pub app_name: Seq<char>,
    pub project_name: Seq<char>,
    pub attributes: Map<Seq<char>, JsonScalarView>,
    pub histogram_bounds: Seq<MetricValue>,
    pub histogram_counts: Seq<u64>,
    pub histogram_count: u64,
    pub histogram_sum: MetricValue,
    pub is_monotonic: bool,
}

impl View for MetricEntry {
    type V = MetricEntryView;

    open spec fn view(&self) -> MetricEntryView {
        MetricEntryView {
            name: self.name@,
            description: self.description@,
            unit: self.unit@,
            kind: self.kind,
            value: self.value,
            timestamp: self.timestamp,
            source: self.source@,
            hostname: self.hostname@,
            ams_net_id: self.ams_net_id@,
            ams_source_port: self.ams_source_port,
            task_index: self.task_index,
            task_name: self.task_name@,
            task_cycle_counter: self.task_cycle_counter,
            app_name: self.app_name@,
            project_name: self.project_name@,
            attributes: self.attributes@,
            histogram_bounds: self.histogram_bounds@,
            histogram_counts: self.histogram_counts@,
            histogram_count: self.histogram_count,
            histogram_sum: self.histogram_sum,
            is_monotonic: self.is_monotonic,
        }
    }
}

pub open spec fn metric_views(metrics: Seq<MetricEntry>) -> Seq<MetricEntryView> {
    metrics.map_values(|m: MetricEntry| m@)
}

impl MetricEntryView {
    /// A metric of which nothing more is known.
    pub open spec fn plain(
        name: Seq<char>,
        kind: MetricKind,
        value: MetricValue,
        is_monotonic: bool,
        now: Timestamp,
    ) -> MetricEntryView {
        MetricEntryView {
            name,
            description: Seq::empty(),
            unit: Seq::empty(),
            kind,
            value,
            timestamp: now,
            source: Seq::empty(),
            hostname: Seq::empty(),
            ams_net_id: Seq::empty(),
            ams_source_port: 0,
            task_index: 0,
            task_name: Seq::empty(),
            task_cycle_counter: 0,
            app_name: Seq::empty(),
            project_name: Seq::empty(),
            attributes: Map::empty(),
            histogram_bounds: Seq::empty(),
            histogram_counts: Seq::empty(),
            histogram_count: 0,
            histogram_sum: MetricValue::Unsigned(0),
            is_monotonic,
        }
    }
}

impl MetricEntry {
    fn of_kind(name: String, kind: MetricKind, value: MetricValue, is_monotonic: bool, now: Timestamp) -> (r: Self)
        ensures
            r@ == MetricEntryView::plain(name@, kind, value, is_monotonic, now),
    {
        let r = MetricEntry {
            name,
            description: String::new(),
            unit: String::new(),
            kind,
            value,
            timestamp: now,
            source: String::new(),
            hostname: String::new(),
            ams_net_id: String::new(),
            ams_source_port: 0,
            task_index: 0,
            task_name: String::new(),
            task_cycle_counter: 0,
            app_name: String::new(),
            project_name: String::new(),
            attributes: KeyMap::new(),
            histogram_bounds: Vec::new(),
            histogram_counts: Vec::new(),
            histogram_count: 0,
            histogram_sum: MetricValue::Unsigned(0),
            is_monotonic,
        };
        let ghost plain = MetricEntryView::plain(name@, kind, value, is_monotonic, now);
        assert(r.description@ =~= plain.description);
        assert(r@ == plain);
        r
    }

    /// A gauge.
    pub fn gauge(name: String, value: MetricValue, now: Timestamp) -> (r: Self)
        ensures
            r@ == MetricEntryView::plain(name@, MetricKind::Gauge, value, false, now),
    {
        MetricEntry::of_kind(name, MetricKind::Gauge, value, false, now)
    }

    /// A sum.
    pub fn sum(name: String, value: MetricValue, is_monotonic: bool, now: Timestamp) -> (r: Self)
        ensures
            r@ == MetricEntryView::plain(name@, MetricKind::Sum, value, is_monotonic, now),
    {
        MetricEntry::of_kind(name, MetricKind::Sum, value, is_monotonic, now)
    }

    /// A histogram: the upper bounds of its buckets, what each bucket holds (one more than there
    /// are bounds), and the number and the sum of all observations.
    pub fn histogram(
        name: String,
        bounds: Vec<MetricValue>,
        counts: Vec<u64>,
        count: u64,
        sum: MetricValue,
        now: Timestamp,
    ) -> (r: Self)
        ensures
            r@ == (MetricEntryView {
                histogram_bounds: bounds@,
                histogram_counts: counts@,
                histogram_count: count,
                histogram_sum: sum,
                ..MetricEntryView::plain(name@, MetricKind::Histogram, sum, false, now)
            }),
    {
        let mut r = MetricEntry::of_kind(name, MetricKind::Histogram, sum, false, now);
        r.histogram_bounds = bounds;
        r.histogram_counts = counts;
        r.histogram_count = count;
        r.histogram_sum = sum;
        r
    }
}

} // verus!
