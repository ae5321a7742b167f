//! The plain TCP listener: each message is one log entry, answered with one byte.
use vstd::prelude::*;

use crate::connection_manager::{ConnectionConfig, ConnectionManager, ManagerView};
use crate::diagnostics::viewed;
use crate::models::{LogEntry, LogEntryView};
use crate::parser::{entry_outcome, AdsParser, MAX_MESSAGE_SIZE};
use crate::protocol::{AdsLogEntry, AdsLogEntryView};
use crate::text::{dec, numbered};
use crate::time::Timestamp;
use crate::transport::tcp::{default_config, idle_manager};

verus! {

/// The longest message: what one read takes.
pub const READ_BUFFER_LEN: usize = 65_536;

/// The byte that says that a message was taken.
pub const ACK: u8 = 1;

/// The byte that says that a message could not be read.
pub const NACK: u8 = 0;

/// The record of an entry from a peer.
pub open spec fn entry_log(e: AdsLogEntryView, peer_ip: Seq<char>, peer_port: u16) -> LogEntryView {
    LogEntryView {
        source: peer_ip,
        hostname: "plc-"@ + dec(peer_port as nat),
        message: e.message,
        logger: e.logger,
        level: e.level,
        plc_timestamp: e.plc_timestamp,
        clock_timestamp: e.clock_timestamp,
        task_index: e.task_index,
        task_name: e.task_name,
        task_cycle_counter: e.task_cycle_counter,
        app_name: e.app_name,
        project_name: e.project_name,
        online_change_count: e.online_change_count,
        arguments: e.arguments,
        context: e.context,
        ams_net_id: Seq::empty(),
        ams_source_port: 0,
        trace_id: Seq::new(16, |i: int| 0u8),
        span_id: Seq::new(8, |i: int| 0u8),
    }
}

/// What a message leads to: its record, if it can be read, and the byte that answers it.
pub open spec fn message_handled(s: Seq<u8>, peer_ip: Seq<char>, peer_port: u16, now: Timestamp) -> (
    Option<LogEntryView>,
    u8,
) {
    match entry_outcome(s, now) {
        Ok(e) => (Some(entry_log(e, peer_ip, peer_port)), ACK),
        Err(_) => (None, NACK),
    }
}

/// Every message is answered: with an acknowledgment exactly if it gives a record, which names
/// the peer as its source.
pub proof fn law_every_message_is_answered(s: Seq<u8>, peer_ip: Seq<char>, peer_port: u16, now: Timestamp)
    ensures
        ({
            let (record, answer) = message_handled(s, peer_ip, peer_port, now);
            &&& answer == ACK || answer == NACK
            &&& answer == ACK <==> record is Some
            &&& record matches Some(e) ==> e.source == peer_ip
            &&& s.len() > MAX_MESSAGE_SIZE ==> answer == NACK
        }),
{
}

/// Where the listener listens, and its limits.
pub struct AdsListener {
    pub host: String,
    pub port: u16,
    pub conn_manager: ConnectionManager,
}

pub struct ListenerView {
    pub host: Seq<char>,
    pub port: u16,
    pub connections: ManagerView,
}

impl View for AdsListener {
    type V = ListenerView;

    open spec fn view(&self) -> ListenerView {
        ListenerView { host: self.host@, port: self.port, connections: self.conn_manager@ }
    }
}

impl AdsListener {
    pub fn new(host: String, port: u16) -> (r: Self)
        ensures
            r@ == (ListenerView { host: host@, port, connections: idle_manager(default_config()) }),
    {
        Self::with_connection_config(host, port, ConnectionConfig::default())
    }

    pub fn with_max_connections(host: String, port: u16, max_connections: usize) -> (r: Self)
        ensures
            r@ == (ListenerView {
                host: host@,
                port,
                connections: idle_manager((ConnectionConfig { max_connections, ..default_config() })),
            }),
    {
        let config = ConnectionConfig { max_connections, ..ConnectionConfig::default() };
        Self::with_connection_config(host, port, config)
    }

    pub fn with_connection_config(host: String, port: u16, config: ConnectionConfig) -> (r: Self)
        ensures
            r@ == (ListenerView { host: host@, port, connections: idle_manager(config) }),
    {
        AdsListener { host, port, conn_manager: ConnectionManager::new(config) }
    }

    pub fn connection_manager(&self) -> (r: &ConnectionManager)
        ensures
            r@ == self@.connections,
    {
        &self.conn_manager
    }

    /// Takes in one message: gives its record, if it can be read, and the byte that answers it.
    pub fn on_message(data: &[u8], peer_ip: &str, peer_port: u16, now: Timestamp) -> (r: (Option<LogEntry>, u8))
        ensures
            (viewed(r.0), r.1) == message_handled(data@, peer_ip@, peer_port, now),
    {
        match AdsParser::parse_at(data, now) {
            Ok(entry) => (Some(Self::ads_to_log_entry(entry, peer_ip, peer_port)), ACK),
            Err(_) => (None, NACK),
        }
    }

    /// The record of an entry from a peer.
    pub fn ads_to_log_entry(ads_entry: AdsLogEntry, peer_ip: &str, peer_port: u16) -> (r: LogEntry)
        ensures
            r@ == entry_log(ads_entry@, peer_ip@, peer_port),
    {
        let mut entry = LogEntry::new(
            peer_ip.to_string(),
            numbered("plc-", peer_port as u64),
            ads_entry.message,
            ads_entry.logger,
            ads_entry.level,
            ads_entry.plc_timestamp,
        );
        entry.plc_timestamp = ads_entry.plc_timestamp;
        entry.clock_timestamp = ads_entry.clock_timestamp;
        entry.task_index = ads_entry.task_index;
        entry.task_name = ads_entry.task_name;
        entry.task_cycle_counter = ads_entry.task_cycle_counter;
        entry.app_name = ads_entry.app_name;
        entry.project_name = ads_entry.project_name;
        entry.online_change_count = ads_entry.online_change_count;
        entry.arguments = ads_entry.arguments;
        entry.context = ads_entry.context;
        entry
    }
}

} // verus!
