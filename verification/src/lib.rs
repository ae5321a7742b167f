//! Telemetry intake for TwinCAT PLCs: the AMS/ADS wire formats, the log and
//! span parsers, the routing decisions and the custom-metric client.
use vstd::prelude::*;

pub mod ads_client;
pub mod ams;
pub mod ams_server;
pub mod broken_laws;
pub mod buffer_laws;
pub mod client;
pub mod config;
pub mod connection_manager;
pub mod custom_metric_notifier;
pub mod custom_metric_poller;
pub mod diagnostics;
pub mod diagnostics_laws;
pub mod diagnostics_observer;
pub mod diagnostics_poller;
pub mod diagnostics_poller_laws;
pub mod diagnostics_push;
pub mod dispatcher;
pub mod encoding;
pub mod error;
pub mod fixtures;
pub mod frame;
pub mod health_laws;
pub mod health_metrics;
pub mod idmap;
pub mod item_laws;
pub mod keymap;
pub mod listener;
pub mod message_laws;
pub mod models;
pub mod mqtt_health_metrics;
pub mod parser;
pub mod parser_laws;
pub mod protocol;
pub mod push_laws;
pub mod reader;
pub mod registry;
pub mod router;
pub mod router_laws;
pub mod sample_laws;
pub mod setup_laws;
pub mod symbol;
pub mod symbol_handle;
pub mod text;
pub mod text_laws;
pub mod time;
pub mod topics;
pub mod transport;
pub mod transport_laws;
pub mod value;
pub mod value_laws;
pub mod widen;
pub mod window_laws;
pub mod wire;
pub mod wire_laws;

verus! {

} // verus!
