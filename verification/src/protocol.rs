//! The messages that PLCs send.
use vstd::prelude::*;

use crate::keymap::{KeyMap, MapKey};
use crate::models::{JsonScalar, JsonScalarView, LogLevel, Lreal, MetricKind, SpanKind, SpanStatusCode};
use crate::text::{hex, push_padded_hex, zero_padded};
use crate::time::Timestamp;

verus! {

/// The version of the ADS protocol in use.
pub const ADS_PROTOCOL_VERSION: u8 = 1;

/// The port that ADS messages come in on.
pub const ADS_DEFAULT_PORT: u16 = 16150;

#[derive(Debug, Clone, Copy, PartialEq, Eq, Structural)]
pub enum AdsProtocolVersion {
    V1,
    V2,
    Registration,
}

impl AdsProtocolVersion {
    /// The byte that stands for the version.
    pub open spec fn number(self) -> u8 {
        match self {
            AdsProtocolVersion::V1 => 1,
            AdsProtocolVersion::V2 => 2,
            AdsProtocolVersion::Registration => 3,
        }
    }

    /// The version that a byte stands for.
    pub open spec fn of(b: u8) -> Option<AdsProtocolVersion> {
        match b {
            1 => Some(AdsProtocolVersion::V1),
            2 => Some(AdsProtocolVersion::V2),
            3 => Some(AdsProtocolVersion::Registration),
            _ => None,
        }
    }

    pub fn as_u8(&self) -> (r: u8)
        ensures
            r == self.number(),
    {
        match self {
            AdsProtocolVersion::V1 => 1,
            AdsProtocolVersion::V2 => 2,
            AdsProtocolVersion::Registration => 3,
        }
    }

    pub fn from_u8(val: u8) -> (r: Option<Self>)
        ensures
            r == AdsProtocolVersion::of(val),
    {
        match val {
            1 => Some(AdsProtocolVersion::V1),
            2 => Some(AdsProtocolVersion::V2),
            3 => Some(AdsProtocolVersion::Registration),
            _ => None,
        }
    }
}

/// A version and its byte determine each other.
pub proof fn law_version_bytes(v: AdsProtocolVersion, b: u8)
    ensures
        AdsProtocolVersion::of(v.number()) == Some(v),
        AdsProtocolVersion::of(b) == Some(v) ==> v.number() == b,
{
}

/// The value of a span attribute.
#[derive(Debug, PartialEq, Eq)]
pub enum AttrValue {
    I64(i64),
    F64(Lreal),
    Bool(bool),
    String(String),
}

/// A step in the life of a span.
#[derive(Debug)]
pub enum TraceWireEvent {
    /// A span starts.
    Begin {
        local_id: u8,
        task_index: u8,
        flags: u8,
        dc_time: i64,
        parent_local_id: u8,
        kind: u8,
        name: String,
        traceparent: Option<String>,
    },
    /// A span that has started gets an attribute.
    Attr { local_id: u8, task_index: u8, flags: u8, dc_time: i64, key: String, value: AttrValue },
    /// Something happens within a span.
    Event {
        local_id: u8,
        task_index: u8,
        flags: u8,
        dc_time: i64,
        name: String,
        attrs: Vec<(String, AttrValue)>,
    },
    /// A span ends.
    End { local_id: u8, task_index: u8, flags: u8, dc_time: i64, status: u8, message: String },
}

/// A log entry as it comes over the wire.
#[derive(Debug)]
pub struct AdsLogEntry {
    pub version: AdsProtocolVersion,
    pub message: String,
    pub logger: String,
    pub level: LogLevel,
    pub plc_timestamp: Timestamp,
    pub clock_timestamp: Timestamp,
    pub task_index: i32,
    pub task_name: String,
    pub task_cycle_counter: u32,
    pub app_name: String,
    pub project_name: String,
    pub online_change_count: u32,
    /// All zeros: no trace.
    pub trace_id: [u8; 16],
    /// All zeros: no span.
    pub span_id: [u8; 8],
    pub arguments: KeyMap<usize, JsonScalar>,
    pub context: KeyMap<String, JsonScalar>,
}

/// An [`AdsLogEntry`] with its texts as character sequences and its maps as maps.
pub struct AdsLogEntryView {
    pub version: AdsProtocolVersion,
    pub message: Seq<char>,
    pub logger: Seq<char>,
    pub level: LogLevel,
    pub plc_timestamp: Timestamp,
    pub clock_timestamp: Timestamp,
    pub task_index: i32,
    pub task_name: Seq<char>,
    pub task_cycle_counter: u32,
    pub app_name: Seq<char>,
    pub project_name: Seq<char>,
    pub online_change_count: u32,
    pub trace_id: Seq<u8>,
    pub span_id: Seq<u8>,
    pub arguments: Map<usize, JsonScalarView>,
    pub context: Map<Seq<char>, JsonScalarView>,
}

impl View for AdsLogEntry {
    type V = AdsLogEntryView;

    open spec fn view(&self) -> AdsLogEntryView {
        AdsLogEntryView {
            version: self.version,
            message: self.message@,
            logger: self.logger@,
            level: self.level,
            plc_timestamp: self.plc_timestamp,
            clock_timestamp: self.clock_timestamp,
            task_index: self.task_index,
            task_name: self.task_name@,
            task_cycle_counter: self.task_cycle_counter,
            app_name: self.app_name@,
            project_name: self.project_name@,
            online_change_count: self.online_change_count,
            trace_id: self.trace_id@,
            span_id: self.span_id@,
            arguments: self.arguments@,
            context: self.context@,
        }
    }
}

/// A structured argument of a log message.
#[derive(Debug)]
pub struct AdsArgument {
    pub type_id: u8,
    pub index: u8,
    pub value: JsonScalar,
}

/// A context property of a log message.
#[derive(Debug)]
pub struct AdsContext {
    pub type_id: u8,
    pub scope: u8,
    pub name: String,
    pub value: JsonScalar,
}

/// The static data of a task, sent once.
#[derive(Debug)]
pub struct RegistrationMessage {
    pub task_index: u8,
    pub task_name: String,
    pub app_name: String,
    pub project_name: String,
    pub online_change_count: u32,
}

pub struct RegistrationMessageView {
    pub task_index: u8,
    pub task_name: Seq<char>,
    pub app_name: Seq<char>,
    pub project_name: Seq<char>,
    pub online_change_count: u32,
}

impl View for RegistrationMessage {
    type V = RegistrationMessageView;

    open spec fn view(&self) -> RegistrationMessageView {
        RegistrationMessageView {
            task_index: self.task_index,
            task_name: self.task_name@,
            app_name: self.app_name@,
            project_name: self.project_name@,
            online_change_count: self.online_change_count,
        }
    }
}

/// What identifies a task: the Net ID, the source port and the task index.
#[derive(Debug, PartialEq, Eq, Hash)]
pub struct RegistrationKey {
    pub ams_net_id: String,
    pub ams_source_port: u16,
    pub task_index: u8,
}

pub struct RegistrationKeyView {
    pub ams_net_id: Seq<char>,
    pub ams_source_port: u16,
    pub task_index: u8,
}

impl View for RegistrationKey {
    type V = RegistrationKeyView;

    open spec fn view(&self) -> RegistrationKeyView {
        RegistrationKeyView {
            ams_net_id: self.ams_net_id@,
            ams_source_port: self.ams_source_port,
            task_index: self.task_index,
        }
    }
}

impl MapKey for RegistrationKey {
    fn same(&self, other: &Self) -> (b: bool) {
        self.ams_source_port == other.ams_source_port && self.task_index == other.task_index && self.ams_net_id
            == other.ams_net_id
    }
}

impl Clone for RegistrationKey {
    fn clone(&self) -> (r: Self)
        ensures
            r@ == self@,
    {
        RegistrationKey {
            ams_net_id: self.ams_net_id.clone(),
            ams_source_port: self.ams_source_port,
            task_index: self.task_index,
        }
    }
}

/// What a registration says of a task.
#[derive(Debug, PartialEq, Eq)]
pub struct TaskMetadata {
    pub task_name: String,
    pub app_name: String,
    pub project_name: String,
    pub online_change_count: u32,
    /// The port of the PLC application; 0 where it is not known.
    pub app_port: u16,
}

pub struct TaskMetadataView {
    pub task_name: Seq<char>,
    pub app_name: Seq<char>,
    pub project_name: Seq<char>,
    pub online_change_count: u32,
    pub app_port: u16,
}

impl View for TaskMetadata {
    type V = TaskMetadataView;

    open spec fn view(&self) -> TaskMetadataView {
        TaskMetadataView {
            task_name: self.task_name@,
            app_name: self.app_name@,
            project_name: self.project_name@,
            online_change_count: self.online_change_count,
            app_port: self.app_port,
        }
    }
}

impl Clone for TaskMetadata {
    fn clone(&self) -> (r: Self)
        ensures
            r@ == self@,
    {
        TaskMetadata {
            task_name: self.task_name.clone(),
            app_name: self.app_name.clone(),
            project_name: self.project_name.clone(),
            online_change_count: self.online_change_count,
            app_port: self.app_port,
        }
    }
}

/// A metric as it comes over the wire.
#[derive(Debug)]
pub struct AdsMetricEntry {
    pub name: String,
    pub description: String,
    pub unit: String,
    pub kind: MetricKind,
    pub value: Lreal,
    pub timestamp: Timestamp,
    pub task_index: i32,
    pub task_cycle_counter: u32,
    pub is_monotonic: bool,
    pub attributes: KeyMap<String, JsonScalar>,
    pub histogram_bounds: Vec<Lreal>,
    pub histogram_counts: Vec<u64>,
    pub histogram_count: u64,
    pub histogram_sum: Lreal,
}

pub struct AdsMetricEntryView {
    pub name: Seq<char>,
    pub description: Seq<char>,
    pub unit: Seq<char>,
    pub kind: MetricKind,
    pub value: Lreal,
    pub timestamp: Timestamp,
    pub task_index: i32,
    pub task_cycle_counter: u32,
    pub is_monotonic: bool,
    pub attributes: Map<Seq<char>, JsonScalarView>,
    pub histogram_bounds: Seq<Lreal>,
    pub histogram_counts: Seq<u64>,
    pub histogram_count: u64,
    pub histogram_sum: Lreal,
}

impl View for AdsMetricEntry {
    type V = AdsMetricEntryView;

    open spec fn view(&self) -> AdsMetricEntryView {
        AdsMetricEntryView {
            name: self.name@,
            description: self.description@,
            unit: self.unit@,
            kind: self.kind,
            value: self.value,
            timestamp: self.timestamp,
            task_index: self.task_index,
            task_cycle_counter: self.task_cycle_counter,
            is_monotonic: self.is_monotonic,
            attributes: self.attributes@,
            histogram_bounds: self.histogram_bounds@,
            histogram_counts: self.histogram_counts@,
            histogram_count: self.histogram_count,
            histogram_sum: self.histogram_sum,
        }
    }
}

/// Something that happened within a span.
#[derive(Debug)]
pub struct AdsSpanEvent {
    pub timestamp: Timestamp,
    pub name: String,
    pub attributes: KeyMap<String, JsonScalar>,
}

pub struct AdsSpanEventView {
    pub timestamp: Timestamp,
    pub name: Seq<char>,
    pub attributes: Map<Seq<char>, JsonScalarView>,
}

impl View for AdsSpanEvent {
    type V = AdsSpanEventView;

    open spec fn view(&self) -> AdsSpanEventView {
        AdsSpanEventView { timestamp: self.timestamp, name: self.name@, attributes: self.attributes@ }
    }
}

/// A completed span as it comes over the wire.
#[derive(Debug)]
pub struct AdsSpanEntry {
    pub trace_id: [u8; 16],
    pub span_id: [u8; 8],
    pub parent_span_id: [u8; 8],
    pub name: String,
    pub kind: SpanKind,
    pub status_code: SpanStatusCode,
    pub status_message: String,
    pub start_time: Timestamp,
    pub end_time: Timestamp,
    pub task_index: i32,
    pub task_cycle_counter: u32,
    pub attributes: KeyMap<String, JsonScalar>,
    pub events: Vec<AdsSpanEvent>,
}

pub struct AdsSpanEntryView {
    pub trace_id: Seq<u8>,
    pub span_id: Seq<u8>,
    pub parent_span_id: Seq<u8>,
    pub name: Seq<char>,
    pub kind: SpanKind,
    pub status_code: SpanStatusCode,
    pub status_message: Seq<char>,
    pub start_time: Timestamp,
    pub end_time: Timestamp,
    pub task_index: i32,
    pub task_cycle_counter: u32,
    pub attributes: Map<Seq<char>, JsonScalarView>,
    pub events: Seq<AdsSpanEventView>,
}

impl View for AdsSpanEntry {
    type V = AdsSpanEntryView;

    open spec fn view(&self) -> AdsSpanEntryView {
        AdsSpanEntryView {
            trace_id: self.trace_id@,
            span_id: self.span_id@,
            parent_span_id: self.parent_span_id@,
            name: self.name@,
            kind: self.kind,
            status_code: self.status_code,
            status_message: self.status_message@,
            start_time: self.start_time,
            end_time: self.end_time,
            task_index: self.task_index,
            task_cycle_counter: self.task_cycle_counter,
            attributes: self.attributes@,
            events: self.events@.map_values(|e: AdsSpanEvent| e@),
        }
    }
}

/// Bytes as lower-case hexadecimal, two digits each.
pub open spec fn hex_id(b: Seq<u8>) -> Seq<char>
    decreases b.len(),
{
    if b.len() == 0 {
        Seq::empty()
    } else {
        hex_id(b.drop_last()) + zero_padded(hex(b.last() as nat), 2)
    }
}

/// Whether an id is not set.
pub open spec fn unset(b: Seq<u8>) -> bool {
    forall|i: int| 0 <= i < b.len() ==> #[trigger] b[i] == 0
}

fn hex_text(b: &[u8]) -> (r: String)
    ensures
        r@ == hex_id(b@),
{
    let mut r = String::new();
    let mut i: usize = 0;
    assert(b@.take(0) =~= Seq::empty());
    while i < b.len()
        invariant
            i <= b@.len(),
            r@ == hex_id(b@.take(i as int)),
        decreases b@.len() - i,
    {
        assert(b@.take(i + 1).drop_last() =~= b@.take(i as int));
        assert(b@.take(i + 1).last() == b@[i as int]);
        push_padded_hex(&mut r, b[i] as u64, 2);
        i = i + 1;
    }
    assert(b@.take(i as int) =~= b@);
    r
}

impl AdsSpanEntry {
    pub fn trace_id_hex(&self) -> (r: String)
        ensures
            r@ == hex_id(self.trace_id@),
    {
        hex_text(&self.trace_id)
    }

    pub fn span_id_hex(&self) -> (r: String)
        ensures
            r@ == hex_id(self.span_id@),
    {
        hex_text(&self.span_id)
    }

    /// The id of the parent; empty for a root span, whose parent is all zeros.
    pub fn parent_span_id_hex(&self) -> (r: String)
        ensures
            r@ == (if unset(self.parent_span_id@) { Seq::empty() } else { hex_id(self.parent_span_id@) }),
    {
        let mut i: usize = 0;
        while i < 8
            invariant
                i <= 8,
                forall|j: int| 0 <= j < i ==> #[trigger] self.parent_span_id@[j] == 0,
            decreases 8 - i,
        {
            if self.parent_span_id[i] != 0 {
                return hex_text(&self.parent_span_id);
            }
            i = i + 1;
        }
        String::new()
    }
}

} // verus!
