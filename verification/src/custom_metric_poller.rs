//! What is read at each poll of a target.
use vstd::prelude::*;

use crate::config::{CustomMetricDef, CustomMetricDefView};
use crate::models::MetricKind;

verus! {

/// A metric to poll.
#[derive(Debug)]
pub struct PollMetricConfig {
    pub symbol: String,
    pub metric_name: String,
    pub description: String,
    pub unit: String,
    pub kind: MetricKind,
    pub is_monotonic: bool,
}

pub struct PollMetricConfigView {
    pub symbol: Seq<char>,
    pub metric_name: Seq<char>,
    pub description: Seq<char>,
    pub unit: Seq<char>,
    pub kind: MetricKind,
    pub is_monotonic: bool,
}

impl View for PollMetricConfig {
    type V = PollMetricConfigView;

    open spec fn view(&self) -> PollMetricConfigView {
        PollMetricConfigView {
            symbol: self.symbol@,
            metric_name: self.metric_name@,
            description: self.description@,
            unit: self.unit@,
            kind: self.kind,
            is_monotonic: self.is_monotonic,
        }
    }
}

impl PollMetricConfigView {
    /// What a definition says of polling.
    pub open spec fn of(d: CustomMetricDefView) -> PollMetricConfigView {
        PollMetricConfigView {
            symbol: d.symbol,
            metric_name: d.metric_name,
            description: d.description,
            unit: d.unit,
            kind: d.kind.kind(),
            is_monotonic: d.is_monotonic,
        }
    }
}

impl<'a> vstd::std_specs::convert::FromSpecImpl<&'a CustomMetricDef> for PollMetricConfig {
    open spec fn obeys_from_spec() -> bool {
        true
    }

    open spec fn from_spec(def: &'a CustomMetricDef) -> PollMetricConfig {
        PollMetricConfig {
            symbol: def.symbol,
            metric_name: def.metric_name,
            description: def.description,
            unit: def.unit,
            kind: def.kind.kind(),
            is_monotonic: def.is_monotonic,
        }
    }
}

impl<'a> From<&'a CustomMetricDef> for PollMetricConfig {
    fn from(def: &'a CustomMetricDef) -> (r: Self)
        ensures
            r@ == PollMetricConfigView::of(def@),
    {
        PollMetricConfig {
            symbol: def.symbol.clone(),
            metric_name: def.metric_name.clone(),
            description: def.description.clone(),
            unit: def.unit.clone(),
            kind: def.kind.to_metric_kind(),
            is_monotonic: def.is_monotonic,
        }
    }
}

/// The polling of one port of one PLC.
#[derive(Debug)]
pub struct CustomMetricPoller {
    ams_net_id: String,
    ams_port: u16,
    poll_interval_ms: u64,
    metrics: Vec<PollMetricConfig>,
}

impl CustomMetricPoller {
    pub closed spec fn target(&self) -> (Seq<char>, u16) {
        (self.ams_net_id@, self.ams_port)
    }

    pub closed spec fn interval(&self) -> u64 {
        self.poll_interval_ms
    }

    pub closed spec fn metric_list(&self) -> Seq<PollMetricConfig> {
        self.metrics@
    }

    pub fn new(ams_net_id: String, ams_port: u16, poll_interval_ms: u64, metrics: Vec<PollMetricConfig>) -> (r: Self)
        ensures
            r.target() == (ams_net_id@, ams_port),
            r.interval() == poll_interval_ms,
            r.metric_list() == metrics@,
    {
        CustomMetricPoller { ams_net_id, ams_port, poll_interval_ms, metrics }
    }

    /// How long to wait between polls; nothing if there is nothing to poll.
    pub fn schedule(&self) -> (r: Option<u64>)
        ensures
            r == (if self.metric_list().len() == 0 { None } else { Some(self.interval()) }),
    {
        if self.metrics.len() == 0 {
            None
        } else {
            Some(self.poll_interval_ms)
        }
    }

    pub fn ams_net_id(&self) -> (r: &String)
        ensures
            r@ == self.target().0,
    {
        &self.ams_net_id
    }

    pub fn ams_port(&self) -> (r: u16)
        ensures
            r == self.target().1,
    {
        self.ams_port
    }
}

} // verus!
