//! How custom metrics are configured.
use vstd::prelude::*;

use crate::models::MetricKind;

verus! {

#[derive(Debug, Clone, Copy, PartialEq, Eq, Structural)]
pub enum MetricKindConfig {
    Gauge,
    Sum,
    Histogram,
}

impl MetricKindConfig {
    pub open spec fn kind(self) -> MetricKind {
        match self {
            MetricKindConfig::Gauge => MetricKind::Gauge,
            MetricKindConfig::Sum => MetricKind::Sum,
            MetricKindConfig::Histogram => MetricKind::Histogram,
        }
    }

    pub fn to_metric_kind(&self) -> (r: MetricKind)
        ensures
            r == self.kind(),
    {
        match self {
            MetricKindConfig::Gauge => MetricKind::Gauge,
            MetricKindConfig::Sum => MetricKind::Sum,
            MetricKindConfig::Histogram => MetricKind::Histogram,
        }
    }
}

/// Where the values of a metric come from.
#[derive(Debug, Clone, Copy, PartialEq, Eq, Structural)]
pub enum CustomMetricSource {
    Push,
    Poll,
    Notification,
}

#[derive(Debug, Clone, Copy, PartialEq, Eq, Structural)]
pub struct PollConfig {
    pub interval_ms: u64,
}

/// When a PLC sends a notification.
#[derive(Debug, Clone, Copy, PartialEq, Eq, Structural)]
pub enum NotificationTransmissionMode {
    OnChange,
    Cyclic,
}

#[derive(Debug, Clone, Copy, PartialEq, Eq, Structural)]
pub struct NotificationConfig {
    pub min_period_ms: u32,
    pub max_period_ms: u32,
    pub max_delay_ms: u32,
    pub transmission_mode: NotificationTransmissionMode,
}

/// A metric that reads a symbol of a PLC.
#[derive(Debug, PartialEq, Eq)]
pub struct CustomMetricDef {
    pub symbol: String,
    pub metric_name: String,
    pub description: String,
    pub unit: String,
    pub kind: MetricKindConfig,
    pub is_monotonic: bool,
    pub source: CustomMetricSource,
    pub ams_net_id: Option<String>,
    pub ams_port: Option<u16>,
    pub poll: Option<PollConfig>,
    pub notification: Option<NotificationConfig>,
}

pub struct CustomMetricDefView {
    pub symbol: Seq<char>,
    pub metric_name: Seq<char>,
    pub description: Seq<char>,
    pub unit: Seq<char>,
    pub kind: MetricKindConfig,
    pub is_monotonic: bool,
    pub source: CustomMetricSource,
    pub ams_net_id: Option<Seq<char>>,
    pub ams_port: Option<u16>,
    pub poll: Option<PollConfig>,
    pub notification: Option<NotificationConfig>,
}

impl View for CustomMetricDef {
    type V = CustomMetricDefView;

    open spec fn view(&self) -> CustomMetricDefView {
        CustomMetricDefView {
            symbol: self.symbol@,
            metric_name: self.metric_name@,
            description: self.description@,
            unit: self.unit@,
            kind: self.kind,
            is_monotonic: self.is_monotonic,
            source: self.source,
            ams_net_id: match self.ams_net_id {
                Some(id) => Some(id@),
                None => None,
            },
            ams_port: self.ams_port,
            poll: self.poll,
            notification: self.notification,
        }
    }
}

pub open spec fn def_views(defs: Seq<CustomMetricDef>) -> Seq<CustomMetricDefView> {
    defs.map_values(|d: CustomMetricDef| d@)
}

impl Clone for CustomMetricDef {
    fn clone(&self) -> (r: Self)
        ensures
            r@ == self@,
    {
        CustomMetricDef {
            symbol: self.symbol.clone(),
            metric_name: self.metric_name.clone(),
            description: self.description.clone(),
            unit: self.unit.clone(),
            kind: self.kind,
            is_monotonic: self.is_monotonic,
            source: self.source,
            ams_net_id: match &self.ams_net_id {
                Some(id) => Some(id.clone()),
                None => None,
            },
            ams_port: self.ams_port,
            poll: self.poll,
            notification: self.notification,
        }
    }
}

} // verus!
