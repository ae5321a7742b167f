//! Metrics that are read again and again.
use std::sync::Arc;
use vstd::prelude::*;

use crate::client::error::{told, ClientError, ClientErrorView};
use crate::client::{PlcValue, SymbolMeta, SymbolReader};
use crate::config::{CustomMetricDef, CustomMetricDefView, MetricKindConfig};
use crate::models::{JsonScalar, JsonScalarView, MetricEntry, MetricEntryView, MetricKind};
use crate::time::{utc_now, Timestamp};

verus! {

/// How long to wait after a first failed read.
pub const BACKOFF_INITIAL_MS: u64 = 250;

/// The longest wait after a failed read.
pub const BACKOFF_MAX_MS: u64 = 30_000;

/// The shortest time between two reads.
pub const MIN_INTERVAL_MS: u64 = 10;

/// The time between two reads where a definition names none.
pub const DEFAULT_INTERVAL_MS: u64 = 1000;

/// The name of the type of a value.
pub open spec fn datatype_name(v: PlcValue) -> Seq<char> {
    match v {
        PlcValue::Bool(_) => "bool"@,
        PlcValue::I64(_) => "i64"@,
        PlcValue::U64(_) => "u64"@,
        PlcValue::F64(_) => "f64"@,
    }
}

/// The metric of a value that was read. Single values make no histogram: such a definition gives
/// a gauge.
pub open spec fn entry_of(d: CustomMetricDefView, v: PlcValue, now: Timestamp) -> MetricEntryView {
    let is_sum = d.kind == MetricKindConfig::Sum;
    MetricEntryView {
        description: d.description,
        unit: d.unit,
        source: "client-poll"@,
        ams_net_id: match d.ams_net_id {
            Some(id) => id,
            None => Seq::empty(),
        },
        ams_source_port: match d.ams_port {
            Some(port) => port,
            None => 0,
        },
        attributes: Map::<Seq<char>, JsonScalarView>::empty().insert(
            "plc.symbol"@,
            JsonScalarView::Text(d.symbol),
        ).insert("plc.datatype"@, JsonScalarView::Text(datatype_name(v))),
        ..MetricEntryView::plain(
            d.metric_name,
            if is_sum { MetricKind::Sum } else { MetricKind::Gauge },
            v.number(),
            is_sum && d.is_monotonic,
            now,
        )
    }
}

fn datatype_text(v: PlcValue) -> (r: String)
    ensures
        r@ == datatype_name(v),
{
    match v {
        PlcValue::Bool(_) => String::from_str("bool"),
        PlcValue::I64(_) => String::from_str("i64"),
        PlcValue::U64(_) => String::from_str("u64"),
        PlcValue::F64(_) => String::from_str("f64"),
    }
}

/// Builds the metric of a value that was read at `now`.
pub fn build_metric_entry_at(def: &CustomMetricDef, value: PlcValue, now: Timestamp) -> (r: MetricEntry)
    ensures
        r@ == entry_of(def@, value, now),
{
    let mut entry = match def.kind {
        MetricKindConfig::Sum => MetricEntry::sum(
            def.metric_name.clone(),
            value.as_metric_value(),
            def.is_monotonic,
            now,
        ),
        _ => MetricEntry::gauge(def.metric_name.clone(), value.as_metric_value(), now),
    };
    entry.description = def.description.clone();
    entry.unit = def.unit.clone();
    entry.source = String::from_str("client-poll");
    match &def.ams_net_id {
        Some(id) => {
            entry.ams_net_id = id.clone();
        },
        None => {},
    }
    match def.ams_port {
        Some(port) => {
            entry.ams_source_port = port;
        },
        None => {},
    }
    let mut attributes = entry.attributes;
    attributes.insert(String::from_str("plc.symbol"), JsonScalar::Text(def.symbol.clone()));
    attributes.insert(String::from_str("plc.datatype"), JsonScalar::Text(datatype_text(value)));
    entry.attributes = attributes;
    entry
}

/// Builds the metric of a value that was read now.
pub fn build_metric_entry(def: &CustomMetricDef, value: PlcValue) -> (r: MetricEntry)
    ensures
        exists|now: Timestamp| r@ == #[trigger] entry_of(def@, value, now),
{
    let now = utc_now();
    build_metric_entry_at(def, value, now)
}

/// What follows a read.
#[derive(Debug)]
pub enum PollStep {
    /// Send the metric.
    Emit(MetricEntry),
    /// Wait this many milliseconds.
    Wait(u64),
}

pub enum PollStepView {
    Emit(MetricEntryView),
    Wait(u64),
}

impl View for PollStep {
    type V = PollStepView;

    open spec fn view(&self) -> PollStepView {
        match *self {
            PollStep::Emit(e) => PollStepView::Emit(e@),
            PollStep::Wait(ms) => PollStepView::Wait(ms),
        }
    }
}

/// The wait after the next failure: twice as long, up to the longest.
pub open spec fn longer(backoff_ms: u64) -> u64 {
    if 2 * backoff_ms > BACKOFF_MAX_MS { BACKOFF_MAX_MS } else { (2 * backoff_ms) as u64 }
}

/// What follows a read, and the wait after the next failure.
pub open spec fn after_read(
    d: CustomMetricDefView,
    backoff_ms: u64,
    value: Result<PlcValue, ClientErrorView>,
    now: Timestamp,
) -> (u64, PollStepView) {
    match value {
        Ok(v) => (BACKOFF_INITIAL_MS, PollStepView::Emit(entry_of(d, v, now))),
        Err(_) => (longer(backoff_ms), PollStepView::Wait(backoff_ms)),
    }
}

/// The polling of one metric.
pub struct Poller<R: SymbolReader> {
    pub def: CustomMetricDef,
    pub meta: SymbolMeta,
    pub reader: Arc<R>,
    pub backoff_ms: u64,
}

impl<R: SymbolReader> Poller<R> {
    /// The polling of a metric. Only gauges and sums can be polled.
    pub fn new(def: CustomMetricDef, meta: SymbolMeta, reader: Arc<R>) -> (r: Result<Self, ClientError>)
        ensures
            if def.kind == MetricKindConfig::Histogram {
                r matches Err(e) && e@ == ClientErrorView::Decode(
                    "poll source only supports gauge/sum kinds (histogram is push-only)"@,
                )
            } else {
                r == Ok::<Poller<R>, ClientError>(
                    (Poller { def, meta, reader, backoff_ms: BACKOFF_INITIAL_MS }),
                )
            },
    {
        match def.kind {
            MetricKindConfig::Histogram => Err(
                ClientError::Decode(
                    String::from_str("poll source only supports gauge/sum kinds (histogram is push-only)"),
                ),
            ),
            _ => Ok(Poller { def, meta, reader, backoff_ms: BACKOFF_INITIAL_MS }),
        }
    }

    /// The time between two reads.
    pub open spec fn interval(d: CustomMetricDefView) -> u64 {
        match d.poll {
            Some(c) => if c.interval_ms < MIN_INTERVAL_MS { MIN_INTERVAL_MS } else { c.interval_ms },
            None => DEFAULT_INTERVAL_MS,
        }
    }

    /// The milliseconds between two reads.
    pub fn interval_ms(&self) -> (r: u64)
        ensures
            r == Poller::<R>::interval(self.def@),
    {
        match self.def.poll {
            Some(c) => if c.interval_ms < MIN_INTERVAL_MS {
                MIN_INTERVAL_MS
            } else {
                c.interval_ms
            },
            None => DEFAULT_INTERVAL_MS,
        }
    }

    /// Takes in the outcome of a read.
    pub fn on_read(&mut self, value: Result<PlcValue, ClientError>, now: Timestamp) -> (r: PollStep)
        requires
            old(self).backoff_ms <= BACKOFF_MAX_MS,
        ensures
            (final(self).backoff_ms, r@) == after_read(old(self).def@, old(self).backoff_ms, told(value), now),
            final(self).def == old(self).def,
            final(self).meta == old(self).meta,
            final(self).reader == old(self).reader,
            final(self).backoff_ms <= BACKOFF_MAX_MS,
    {
        match value {
            Ok(v) => {
                self.backoff_ms = BACKOFF_INITIAL_MS;
                PollStep::Emit(build_metric_entry_at(&self.def, v, now))
            },
            Err(_) => {
                let wait: u64 = self.backoff_ms;
                self.backoff_ms = if 2 * wait > BACKOFF_MAX_MS {
                    BACKOFF_MAX_MS
                } else {
                    2 * wait
                };
                PollStep::Wait(wait)
            },
        }
    }

    /// Reads the symbol and takes in the outcome.
    pub fn poll_at(&mut self, now: Timestamp) -> (r: PollStep)
        requires
            old(self).backoff_ms <= BACKOFF_MAX_MS,
        ensures
            exists|value: Result<PlcValue, ClientError>| #[trigger]
                call_ensures(R::read_value, (&*old(self).reader, &old(self).meta), value) && (
                    final(self).backoff_ms,
                    r@,
                ) == after_read(old(self).def@, old(self).backoff_ms, told(value), now),
            final(self).def == old(self).def,
            final(self).meta == old(self).meta,
            final(self).reader == old(self).reader,
            final(self).backoff_ms <= BACKOFF_MAX_MS,
    {
        let value = self.reader.read_value(&self.meta);
        self.on_read(value, now)
    }
}

/// The wait after `n` failures in a row that follow a wait of `ms`.
pub open spec fn wait_after(ms: u64, n: nat) -> u64
    decreases n,
{
    if n == 0 { ms } else { longer(wait_after(ms, (n - 1) as nat)) }
}

/// The waits between failed reads double up to the longest, and never grow beyond it.
pub proof fn law_waits_double_up_to_the_longest(n: nat)
    ensures
        wait_after(BACKOFF_INITIAL_MS, n) <= BACKOFF_MAX_MS,
        n < 7 ==> wait_after(BACKOFF_INITIAL_MS, n) == 250 * vstd::arithmetic::power2::pow2(n),
        n >= 7 ==> wait_after(BACKOFF_INITIAL_MS, n) == BACKOFF_MAX_MS,
    decreases n,
{
    vstd::arithmetic::power2::lemma2_to64();
    if n > 0 {
        law_waits_double_up_to_the_longest((n - 1) as nat);
        vstd::arithmetic::power2::lemma_pow2_unfold(n);
    }
}

/// A successful read ends the waiting: the next failure waits the shortest time again.
pub proof fn law_success_resets_the_wait(d: CustomMetricDefView, backoff_ms: u64, v: PlcValue, now: Timestamp, later: Timestamp, e: ClientErrorView)
    ensures
        ({
            let (reset, _) = after_read(d, backoff_ms, Ok(v), now);
            after_read(d, reset, Err(e), later).1 == PollStepView::Wait(BACKOFF_INITIAL_MS)
        }),
{
}

} // verus!
