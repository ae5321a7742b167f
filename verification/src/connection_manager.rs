//! Limits on connections: in total, for each address, and for the rate at which an address may
//! connect.
use vstd::prelude::*;

use crate::keymap::{keys_of, map_of, KeyMap};
use crate::text::{dec, push_dec};
use crate::time::{Duration, Tick};

verus! {

/// A second, in nanoseconds.
pub const SECOND_NANOS: u64 = 1_000_000_000;

#[derive(Debug, Clone, Copy, PartialEq, Eq, Structural)]
pub struct ConnectionConfig {
    pub max_connections: usize,
    pub idle_timeout_secs: u64,
    pub max_connections_per_ip: usize,
    pub rate_limit_per_sec_per_ip: usize,
    pub keepalive_interval_secs: u64,
    pub send_buffer_size: usize,
    pub shutdown_timeout_secs: u64,
}

impl Default for ConnectionConfig {
    fn default() -> (r: Self)
        ensures
            r == (ConnectionConfig {
                max_connections: 100,
                idle_timeout_secs: 300,
                max_connections_per_ip: 10,
                rate_limit_per_sec_per_ip: 10,
                keepalive_interval_secs: 60,
                send_buffer_size: 1_048_576,
                shutdown_timeout_secs: 30,
            }),
    {
        ConnectionConfig {
            max_connections: 100,
            idle_timeout_secs: 300,
            max_connections_per_ip: 10,
            rate_limit_per_sec_per_ip: 10,
            keepalive_interval_secs: 60,
            send_buffer_size: 1_048_576,
            shutdown_timeout_secs: 30,
        }
    }
}

/// Why a connection was refused. Addresses are given by their text.
#[derive(Debug, PartialEq, Eq)]
pub enum ConnectionRejection {
    MaxConnectionsReached,
    PerIpLimitReached { ip: String, current: usize },
    RateLimitExceeded { ip: String },
    ShuttingDown,
}

pub enum RejectionView {
    MaxConnectionsReached,
    PerIpLimitReached { ip: Seq<char>, current: usize },
    RateLimitExceeded { ip: Seq<char> },
    ShuttingDown,
}

impl View for ConnectionRejection {
    type V = RejectionView;

    open spec fn view(&self) -> RejectionView {
        match *self {
            ConnectionRejection::MaxConnectionsReached => RejectionView::MaxConnectionsReached,
            ConnectionRejection::PerIpLimitReached { ip, current } => {
                RejectionView::PerIpLimitReached { ip: ip@, current }
            },
            ConnectionRejection::RateLimitExceeded { ip } => RejectionView::RateLimitExceeded { ip: ip@ },
            ConnectionRejection::ShuttingDown => RejectionView::ShuttingDown,
        }
    }
}

impl RejectionView {
    /// The message shown for the rejection.
    pub open spec fn message(self) -> Seq<char> {
        match self {
            RejectionView::MaxConnectionsReached => "maximum connection limit reached"@,
            RejectionView::PerIpLimitReached { ip, current } => "per-IP connection limit reached for "@ + ip + " ("@
                + dec(current as nat) + " active)"@,
            RejectionView::RateLimitExceeded { ip } => "connection rate limit exceeded for "@ + ip,
            RejectionView::ShuttingDown => "service is shutting down"@,
        }
    }
}

impl ConnectionRejection {
    pub fn to_string(&self) -> (r: String)
        ensures
            r@ == self@.message(),
    {
        match self {
            ConnectionRejection::MaxConnectionsReached => String::from_str("maximum connection limit reached"),
            ConnectionRejection::PerIpLimitReached { ip, current } => {
                let mut r = String::from_str("per-IP connection limit reached for ");
                r.append(ip);
                r.append(" (");
                push_dec(&mut r, *current as u64);
                r.append(" active)");
                r
            },
            ConnectionRejection::RateLimitExceeded { ip } => String::from_str("connection rate limit exceeded for ").concat(
                ip,
            ),
            ConnectionRejection::ShuttingDown => String::from_str("service is shutting down"),
        }
    }
}

/// The connections of one address, and when the latest ones were made.
#[derive(Debug)]
pub struct IpState {
    active_connections: usize,
    connection_timestamps: Vec<Tick>,
}

pub struct IpStateView {
    pub active: usize,
    pub stamps: Seq<Tick>,
}

impl View for IpState {
    type V = IpStateView;

    closed spec fn view(&self) -> IpStateView {
        IpStateView { active: self.active_connections, stamps: self.connection_timestamps@ }
    }
}

/// Less than a second old.
pub open spec fn recent(stamp: Tick, now: Tick) -> bool {
    now.nanos < stamp.nanos + SECOND_NANOS
}

/// The stamps that are less than a second old.
pub open spec fn recent_stamps(stamps: Seq<Tick>, now: Tick) -> Seq<Tick>
    decreases stamps.len(),
{
    if stamps.len() == 0 {
        Seq::empty()
    } else if recent(stamps.last(), now) {
        recent_stamps(stamps.drop_last(), now).push(stamps.last())
    } else {
        recent_stamps(stamps.drop_last(), now)
    }
}

impl IpState {
    fn new() -> (r: Self)
        ensures
            r@ == (IpStateView { active: 0, stamps: Seq::empty() }),
    {
        let r = IpState { active_connections: 0, connection_timestamps: Vec::new() };
        assert(r@.stamps =~= Seq::empty());
        r
    }

    /// Forgets the stamps that are a second old or older.
    fn prune_timestamps(&mut self, now: Tick)
        ensures
            final(self)@ == (IpStateView { stamps: recent_stamps(old(self)@.stamps, now), ..old(self)@ }),
    {
        let ghost all = self.connection_timestamps@;
        let mut left: Vec<Tick> = Vec::new();
        let mut i: usize = 0;
        assert(all.take(0) =~= Seq::empty());
        while i < self.connection_timestamps.len()
            invariant
                i <= all.len(),
                all == self.connection_timestamps@,
                left@ == recent_stamps(all.take(i as int), now),
            decreases all.len() - i,
        {
            let stamp = self.connection_timestamps[i];
            assert(all.take(i + 1).drop_last() =~= all.take(i as int));
            assert(all.take(i + 1).last() == stamp);
            if now.since(stamp) < SECOND_NANOS {
                left.push(stamp);
            }
            i = i + 1;
        }
        assert(all.take(i as int) =~= all);
        self.connection_timestamps = left;
    }
}

/// The limits and what counts against them.
pub struct ConnectionManager {
    config: ConnectionConfig,
    ip_states: KeyMap<String, IpState>,
    active_count: usize,
    shutting_down: bool,
    accepted: u64,
    rejected: u64,
}

pub struct ManagerView {
    pub config: ConnectionConfig,
    pub ips: Map<Seq<char>, IpStateView>,
    pub active: usize,
    pub shutting_down: bool,
    /// How many connections were accepted, modulo 2^64.
    pub accepted: u64,
    /// How many connections were refused, modulo 2^64.
    pub rejected: u64,
}

impl View for ConnectionManager {
    type V = ManagerView;

    closed spec fn view(&self) -> ManagerView {
        ManagerView {
            config: self.config,
            ips: self.ip_states@,
            active: self.active_count,
            shutting_down: self.shutting_down,
            accepted: self.accepted,
            rejected: self.rejected,
        }
    }
}

/// A connection that was accepted; handed back when it ends.
#[derive(Debug)]
pub struct ConnectionPermit {
    ip: String,
}

impl View for ConnectionPermit {
    type V = Seq<char>;

    closed spec fn view(&self) -> Seq<char> {
        self.ip@
    }
}

impl ConnectionPermit {
    pub fn ip(&self) -> (r: &String)
        ensures
            r@ == self@,
    {
        &self.ip
    }
}

pub open spec fn next_count(n: u64) -> u64 {
    if n == u64::MAX { 0 } else { (n + 1) as u64 }
}

/// What is known of an address.
pub open spec fn state_of(m: ManagerView, ip: Seq<char>) -> IpStateView {
    if m.ips.dom().contains(ip) { m.ips[ip] } else { IpStateView { active: 0, stamps: Seq::empty() } }
}

/// What a connection attempt leads to.
pub open spec fn acquired(m: ManagerView, ip: Seq<char>, now: Tick) -> (ManagerView, Result<Seq<char>, RejectionView>) {
    let refused = ManagerView { rejected: next_count(m.rejected), ..m };
    let state = state_of(m, ip);
    let pruned = IpStateView { stamps: recent_stamps(state.stamps, now), ..state };
    if m.shutting_down {
        (refused, Err(RejectionView::ShuttingDown))
    } else if m.active >= m.config.max_connections {
        (refused, Err(RejectionView::MaxConnectionsReached))
    } else if state.active >= m.config.max_connections_per_ip {
        (
            ManagerView { ips: m.ips.insert(ip, state), ..refused },
            Err(RejectionView::PerIpLimitReached { ip, current: state.active }),
        )
    } else if pruned.stamps.len() >= m.config.rate_limit_per_sec_per_ip {
        (ManagerView { ips: m.ips.insert(ip, pruned), ..refused }, Err(RejectionView::RateLimitExceeded { ip }))
    } else {
        (
            ManagerView {
                ips: m.ips.insert(
                    ip,
                    IpStateView { active: (state.active + 1) as usize, stamps: pruned.stamps.push(now) },
                ),
                active: (m.active + 1) as usize,
                accepted: next_count(m.accepted),
                ..m
            },
            Ok(ip),
        )
    }
}

/// One less, but not below zero.
pub open spec fn one_less(n: usize) -> usize {
    if n == 0 { 0 } else { (n - 1) as usize }
}

/// What the end of a connection leads to.
pub open spec fn released(m: ManagerView, ip: Seq<char>) -> ManagerView {
    let state = state_of(m, ip);
    let left = IpStateView { active: one_less(state.active), ..state };
    ManagerView {
        ips: if !m.ips.dom().contains(ip) {
            m.ips
        } else if left.active == 0 && left.stamps.len() == 0 {
            m.ips.remove(ip)
        } else {
            m.ips.insert(ip, left)
        },
        active: one_less(m.active),
        ..m
    }
}

/// No limit is exceeded.
pub open spec fn within_limits(m: ManagerView) -> bool {
    &&& m.active <= m.config.max_connections
    &&& forall|ip: Seq<char>| #[trigger]
        m.ips.dom().contains(ip) ==> {
            &&& m.ips[ip].active <= m.config.max_connections_per_ip
            &&& m.ips[ip].stamps.len() <= m.config.rate_limit_per_sec_per_ip
        }
}

/// All connections of all addresses.
pub open spec fn total(ips: Map<Seq<char>, IpStateView>) -> nat
    decreases ips.dom().len(),
    when ips.dom().finite()
{
    if ips.dom().len() == 0 {
        0
    } else {
        let ip = ips.dom().choose();
        ips[ip].active as nat + total(ips.remove(ip))
    }
}

/// Every connection is counted once for its address and once in all.
pub open spec fn counted(m: ManagerView) -> bool {
    m.ips.dom().finite() && m.active == total(m.ips)
}

proof fn lemma_recent_len(stamps: Seq<Tick>, now: Tick)
    ensures
        recent_stamps(stamps, now).len() <= stamps.len(),
    decreases stamps.len(),
{
    if stamps.len() > 0 {
        lemma_recent_len(stamps.drop_last(), now);
    }
}

proof fn lemma_total_of(ips: Map<Seq<char>, IpStateView>, ip: Seq<char>)
    requires
        ips.dom().finite(),
        ips.dom().contains(ip),
    ensures
        total(ips) == ips[ip].active as nat + total(ips.remove(ip)),
    decreases ips.dom().len(),
{
    let first = ips.dom().choose();
    if first != ip {
        lemma_total_of(ips.remove(first), ip);
        lemma_total_of(ips.remove(ip), first);
        assert(ips.remove(first).remove(ip) =~= ips.remove(ip).remove(first));
    }
}

proof fn lemma_total_insert(ips: Map<Seq<char>, IpStateView>, ip: Seq<char>, state: IpStateView)
    requires
        ips.dom().finite(),
    ensures
        total(ips.insert(ip, state)) == state.active as nat + total(ips.remove(ip)),
        ips.dom().contains(ip) ==> total(ips) == ips[ip].active as nat + total(ips.remove(ip)),
        !ips.dom().contains(ip) ==> ips.remove(ip) == ips,
{
    lemma_total_of(ips.insert(ip, state), ip);
    assert(ips.insert(ip, state).remove(ip) =~= ips.remove(ip));
    if ips.dom().contains(ip) {
        lemma_total_of(ips, ip);
    } else {
        assert(ips.remove(ip) =~= ips);
    }
}

/// No connection attempt and no end of a connection takes the manager over a limit: not the
/// total, not that of an address, and not the rate of an address.
pub proof fn law_limits_are_kept(m: ManagerView, ip: Seq<char>, now: Tick)
    requires
        within_limits(m),
    ensures
        within_limits(acquired(m, ip, now).0),
        within_limits(released(m, ip)),
{
    lemma_recent_len(state_of(m, ip).stamps, now);
}

/// The total is always the sum of the connections of all addresses.
pub proof fn law_counts_agree(m: ManagerView, ip: Seq<char>, now: Tick)
    requires
        counted(m),
    ensures
        counted(acquired(m, ip, now).0),
        state_of(m, ip).active > 0 ==> counted(released(m, ip)),
{
    let state = state_of(m, ip);
    let pruned = IpStateView { stamps: recent_stamps(state.stamps, now), ..state };
    lemma_total_insert(m.ips, ip, state);
    lemma_total_insert(m.ips, ip, pruned);
    lemma_total_insert(
        m.ips,
        ip,
        IpStateView { active: (state.active + 1) as usize, stamps: pruned.stamps.push(now) },
    );
    lemma_total_insert(m.ips, ip, IpStateView { active: one_less(state.active), ..state });
}

/// A refused attempt takes no slot.
pub proof fn law_refusals_take_nothing(m: ManagerView, ip: Seq<char>, now: Tick, other: Seq<char>)
    requires
        acquired(m, ip, now).1 is Err,
    ensures
        acquired(m, ip, now).0.active == m.active,
        state_of(acquired(m, ip, now).0, other).active == state_of(m, other).active,
{
}

/// An accepted connection takes one slot in all and one of its address, and its end gives both
/// back.
pub proof fn law_release_undoes_acquire(m: ManagerView, ip: Seq<char>, now: Tick, other: Seq<char>)
    requires
        acquired(m, ip, now).1 is Ok,
    ensures
        acquired(m, ip, now).0.active == m.active + 1,
        state_of(acquired(m, ip, now).0, ip).active == state_of(m, ip).active + 1,
        released(acquired(m, ip, now).0, ip).active == m.active,
        state_of(released(acquired(m, ip, now).0, ip), other).active == state_of(m, other).active,
{
}

/// During shutdown nothing is accepted, and what is open stays open.
pub proof fn law_shutdown_refuses(m: ManagerView, ip: Seq<char>, now: Tick)
    requires
        m.shutting_down,
    ensures
        acquired(m, ip, now).1 == Err::<Seq<char>, RejectionView>(RejectionView::ShuttingDown),
        acquired(m, ip, now).0.active == m.active,
        acquired(m, ip, now).0.ips == m.ips,
{
}

/// The limits of one address do not touch another: an attempt of one leaves what is known of
/// the other as it is.
pub proof fn law_addresses_are_independent(m: ManagerView, ip: Seq<char>, now: Tick, other: Seq<char>)
    requires
        other != ip,
    ensures
        state_of(acquired(m, ip, now).0, other) == state_of(m, other),
        state_of(released(m, ip), other) == state_of(m, other),
{
}

impl ConnectionManager {
    pub fn new(config: ConnectionConfig) -> (r: Self)
        ensures
            r@ == (ManagerView {
                config,
                ips: Map::empty(),
                active: 0,
                shutting_down: false,
                accepted: 0,
                rejected: 0,
            }),
            within_limits(r@),
            counted(r@),
    {
        ConnectionManager {
            config,
            ip_states: KeyMap::new(),
            active_count: 0,
            shutting_down: false,
            accepted: 0,
            rejected: 0,
        }
    }

    /// Decides on a connection attempt.
    pub fn try_acquire(&mut self, ip: &str, now: Tick) -> (r: Result<ConnectionPermit, ConnectionRejection>)
        ensures
            (final(self)@, match r {
                Ok(p) => Ok(p@),
                Err(e) => Err(e@),
            }) == acquired(old(self)@, ip@, now),
    {
        if self.shutting_down {
            self.rejected = self.rejected.wrapping_add(1);
            return Err(ConnectionRejection::ShuttingDown);
        }
        if self.active_count >= self.config.max_connections {
            self.rejected = self.rejected.wrapping_add(1);
            return Err(ConnectionRejection::MaxConnectionsReached);
        }
        let key = ip.to_string();
        let mut state = match self.ip_states.remove(&key) {
            Some(state) => state,
            None => IpState::new(),
        };
        let ghost known = state_of(old(self)@, ip@);
        assert(state@ == known);
        let ghost ips = self.ip_states@;
        assert(forall|s: IpStateView| #[trigger] ips.insert(ip@, s) =~= old(self)@.ips.insert(ip@, s));
        if state.active_connections >= self.config.max_connections_per_ip {
            let current: usize = state.active_connections;
            self.ip_states.insert(key, state);
            self.rejected = self.rejected.wrapping_add(1);
            return Err(ConnectionRejection::PerIpLimitReached { ip: ip.to_string(), current });
        }
        state.prune_timestamps(now);
        if state.connection_timestamps.len() >= self.config.rate_limit_per_sec_per_ip {
            self.ip_states.insert(key, state);
            self.rejected = self.rejected.wrapping_add(1);
            return Err(ConnectionRejection::RateLimitExceeded { ip: ip.to_string() });
        }
        state.active_connections = state.active_connections + 1;
        state.connection_timestamps.push(now);
        self.ip_states.insert(key, state);
        self.active_count = self.active_count + 1;
        self.accepted = self.accepted.wrapping_add(1);
        Ok(ConnectionPermit { ip: ip.to_string() })
    }

    /// Ends the connection of a permit.
    pub fn release(&mut self, permit: ConnectionPermit)
        ensures
            final(self)@ == released(old(self)@, permit@),
    {
        match self.ip_states.remove(&permit.ip) {
            Some(mut state) => {
                if state.active_connections > 0 {
                    state.active_connections = state.active_connections - 1;
                }
                if state.active_connections > 0 || state.connection_timestamps.len() > 0 {
                    let ghost ips = self.ip_states@;
                    assert(ips.insert(permit@, state@) =~= old(self)@.ips.insert(permit@, state@));
                    self.ip_states.insert(permit.ip, state);
                }
            },
            None => {
                assert(self@.ips =~= old(self)@.ips);
            },
        }
        if self.active_count > 0 {
            self.active_count = self.active_count - 1;
        }
    }

    pub fn active_connections(&self) -> (r: usize)
        ensures
            r == self@.active,
    {
        self.active_count
    }

    pub fn connections_for_ip(&self, ip: &str) -> (r: usize)
        ensures
            r == state_of(self@, ip@).active,
    {
        match self.ip_states.get(&ip.to_string()) {
            Some(state) => state.active_connections,
            None => 0,
        }
    }

    /// The addresses with connections, each with their number.
    pub fn connected_ips(&self) -> (r: Vec<(String, usize)>)
        ensures
            keys_of(r@.map_values(|t: (String, usize)| (t.0@, t.1))).no_duplicates(),
            map_of(r@.map_values(|t: (String, usize)| (t.0@, t.1))) == Map::new(
                |ip: Seq<char>| state_of(self@, ip).active > 0,
                |ip: Seq<char>| state_of(self@, ip).active,
            ),
    {
        let ghost pairs = self.ip_states.pairs();
        let n: usize = self.ip_states.len();
        let mut all: Vec<(String, usize)> = Vec::new();
        let ghost mut found: Seq<(Seq<char>, usize)> = Seq::empty();
        let mut i: usize = 0;
        assert(all@.map_values(|t: (String, usize)| (t.0@, t.1)) =~= found);
        while i < n
            invariant
                i <= n,
                pairs == self.ip_states.pairs(),
                n == pairs.len(),
                self@.ips == map_of(pairs),
                keys_of(pairs).no_duplicates(),
                found == all@.map_values(|t: (String, usize)| (t.0@, t.1)),
                found == busy(pairs.take(i as int)),
            decreases n - i,
        {
            let (ip, state) = self.ip_states.entry_at(i);
            assert(pairs.take(i + 1).drop_last() =~= pairs.take(i as int));
            assert(pairs.take(i + 1).last() == pairs[i as int]);
            if state.active_connections > 0 {
                let ghost entry = (ip@, state.active_connections);
                let ghost before = all@;
                all.push((ip.clone(), state.active_connections));
                proof {
                    assert(all@.map_values(|t: (String, usize)| (t.0@, t.1)) =~= found.push(entry));
                    found = found.push(entry);
                }
            }
            i = i + 1;
        }
        assert(pairs.take(n as int) =~= pairs);
        proof {
            lemma_busy(pairs);
            assert(map_of(found) =~= Map::new(
                |ip: Seq<char>| state_of(self@, ip).active > 0,
                |ip: Seq<char>| state_of(self@, ip).active,
            ));
        }
        all
    }

    /// From now on nothing is accepted.
    pub fn shutdown(&mut self)
        ensures
            final(self)@ == (ManagerView { shutting_down: true, ..old(self)@ }),
    {
        self.shutting_down = true;
    }

    pub fn is_shutting_down(&self) -> (r: bool)
        ensures
            r == self@.shutting_down,
    {
        self.shutting_down
    }

    pub fn idle_timeout(&self) -> (r: Duration)
        ensures
            r == (Duration { secs: self@.config.idle_timeout_secs, nanos: 0 }),
    {
        Duration::from_secs(self.config.idle_timeout_secs)
    }

    pub fn keepalive_interval(&self) -> (r: Duration)
        ensures
            r == (Duration { secs: self@.config.keepalive_interval_secs, nanos: 0 }),
    {
        Duration::from_secs(self.config.keepalive_interval_secs)
    }

    pub fn send_buffer_size(&self) -> (r: usize)
        ensures
            r == self@.config.send_buffer_size,
    {
        self.config.send_buffer_size
    }

    pub fn shutdown_timeout(&self) -> (r: Duration)
        ensures
            r == (Duration { secs: self@.config.shutdown_timeout_secs, nanos: 0 }),
    {
        Duration::from_secs(self.config.shutdown_timeout_secs)
    }

    pub fn max_connections(&self) -> (r: usize)
        ensures
            r == self@.config.max_connections,
    {
        self.config.max_connections
    }

    pub fn max_connections_per_ip(&self) -> (r: usize)
        ensures
            r == self@.config.max_connections_per_ip,
    {
        self.config.max_connections_per_ip
    }

    /// How many connections were accepted.
    pub fn total_accepted(&self) -> (r: u64)
        ensures
            r == self@.accepted,
    {
        self.accepted
    }

    /// How many connections were refused.
    pub fn total_rejected(&self) -> (r: u64)
        ensures
            r == self@.rejected,
    {
        self.rejected
    }

    /// Whether the wait for the last connection to end is over, `waited` nanoseconds after it
    /// began: it ends well with no connection left, and badly when the shutdown timeout is over.
    pub fn drained(&self, waited: u64) -> (r: Option<bool>)
        ensures
            r == (if self@.active == 0 {
                Some(true)
            } else if waited >= self@.config.shutdown_timeout_secs * SECOND_NANOS {
                Some(false)
            } else {
                None
            }),
    {
        if self.active_count == 0 {
            Some(true)
        } else if waited as u128 >= self.config.shutdown_timeout_secs as u128 * 1_000_000_000 {
            Some(false)
        } else {
            None
        }
    }
}

/// The addresses with connections, in order.
spec fn busy(pairs: Seq<(Seq<char>, IpStateView)>) -> Seq<(Seq<char>, usize)>
    decreases pairs.len(),
{
    if pairs.len() == 0 {
        Seq::empty()
    } else if pairs.last().1.active > 0 {
        busy(pairs.drop_last()).push((pairs.last().0, pairs.last().1.active))
    } else {
        busy(pairs.drop_last())
    }
}

proof fn lemma_busy(pairs: Seq<(Seq<char>, IpStateView)>)
    requires
        keys_of(pairs).no_duplicates(),
    ensures
        keys_of(busy(pairs)).no_duplicates(),
        forall|ip: Seq<char>| #[trigger]
            map_of(busy(pairs)).dom().contains(ip) <==> map_of(pairs).dom().contains(ip) && map_of(pairs)[ip].active > 0,
        forall|ip: Seq<char>| #[trigger]
            map_of(busy(pairs)).dom().contains(ip) ==> map_of(busy(pairs))[ip] == map_of(pairs)[ip].active,
    decreases pairs.len(),
{
    if pairs.len() > 0 {
        let rest = pairs.drop_last();
        let (ip, state) = pairs.last();
        assert(keys_of(rest) =~= keys_of(pairs).drop_last());
        assert(pairs =~= rest.push((ip, state)));
        assert(!keys_of(rest).contains(ip)) by {
            if keys_of(rest).contains(ip) {
                let j = choose|j: int| 0 <= j < keys_of(rest).len() && keys_of(rest)[j] == ip;
                assert(keys_of(pairs)[j] == keys_of(pairs)[pairs.len() - 1]);
            }
        }
        lemma_busy(rest);
        crate::keymap::lemma_map_of_push(rest, ip, state);
        assert(!map_of(rest).dom().contains(ip));
        if state.active > 0 {
            assert(!map_of(busy(rest)).dom().contains(ip));
            assert(!keys_of(busy(rest)).contains(ip));
            crate::keymap::lemma_map_of_push(busy(rest), ip, state.active);
        }
    }
}

} // verus!
