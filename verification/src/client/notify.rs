//! Metrics that a PLC sends by itself.
use std::sync::Arc;
use vstd::prelude::*;

use crate::client::error::{told, ClientError, ClientErrorView};
use crate::client::poll::{build_metric_entry_at, entry_of};
use crate::client::{decode_scalar, scalar, SymbolMeta, SymbolMetaView};
use crate::config::{CustomMetricDef, CustomMetricDefView, NotificationTransmissionMode};
use crate::dispatcher::low32;
use crate::idmap::IdMap;
use crate::keymap::{
    keys_of, lemma_push_contains, lemma_push_no_duplicates, lemma_take_push, lists, KeyMap, KeySet,
};
use crate::models::{metric_views, MetricEntry, MetricEntryView};
use crate::time::{Duration, Timestamp};
use crate::wire::{le32, put_u32, put_zeros};

verus! {

broadcast use crate::wire::group_wire;

/// What a PLC calls a subscription.
pub type NotifHandle = u32;

/// The shortest cycle of a subscription.
pub const MIN_CYCLE_MS: u32 = 10;

/// How a symbol is subscribed to.
#[derive(Debug, Clone, Copy, PartialEq, Eq, Structural)]
pub struct NotifAttrs {
    pub length: u32,
    pub trans_mode: NotificationTransmissionMode,
    pub max_delay: Duration,
    pub cycle_time: Duration,
}

impl View for NotifAttrs {
    type V = NotifAttrs;

    open spec fn view(&self) -> NotifAttrs {
        *self
    }
}

/// The length of time of some milliseconds.
pub open spec fn millis(ms: u32) -> Duration {
    Duration { secs: (ms / 1000) as u64, nanos: ((ms % 1000) * 1_000_000) as u32 }
}

/// A length of time in units of 100 nanoseconds, modulo 2^32.
pub open spec fn ticks(d: Duration) -> u32 {
    low32(d.total_nanos() / 100)
}

/// The number of a transmission mode on the wire.
pub open spec fn mode_number(mode: NotificationTransmissionMode) -> u32 {
    match mode {
        NotificationTransmissionMode::OnChange => 4,
        NotificationTransmissionMode::Cyclic => 3,
    }
}

/// How a definition subscribes to a symbol of this size.
pub open spec fn attrs_of(d: CustomMetricDefView, size: u32) -> Result<NotifAttrs, ClientErrorView> {
    match d.notification {
        None => Err(
            ClientErrorView::Decode(
                "metric '"@ + d.metric_name + "' has source=notification but no notification config"@,
            ),
        ),
        Some(c) => Ok(
            NotifAttrs {
                length: size,
                trans_mode: c.transmission_mode,
                max_delay: millis(c.max_delay_ms),
                cycle_time: millis(if c.min_period_ms < MIN_CYCLE_MS { MIN_CYCLE_MS } else { c.min_period_ms }),
            },
        ),
    }
}

impl NotifAttrs {
    /// What follows the place and the size of the symbol in a subscription.
    pub open spec fn tail(self) -> Seq<u8> {
        le32(mode_number(self.trans_mode)) + le32(ticks(self.max_delay)) + le32(ticks(self.cycle_time)) + Seq::new(
            16,
            |i: int| 0u8,
        )
    }

    pub fn from_def(def: &CustomMetricDef, size: u32) -> (r: Result<Self, ClientError>)
        ensures
            told(r) == attrs_of(def@, size),
    {
        match def.notification {
            None => Err(
                ClientError::Decode(
                    String::from_str("metric '").concat(&def.metric_name).concat(
                        "' has source=notification but no notification config",
                    ),
                ),
            ),
            Some(c) => {
                let cycle_ms: u32 = if c.min_period_ms < MIN_CYCLE_MS {
                    MIN_CYCLE_MS
                } else {
                    c.min_period_ms
                };
                Ok(
                    NotifAttrs {
                        length: size,
                        trans_mode: c.transmission_mode,
                        max_delay: Duration::from_millis(c.max_delay_ms as u64),
                        cycle_time: Duration::from_millis(cycle_ms as u64),
                    },
                )
            },
        }
    }

    /// Writes what follows the place and the size of the symbol in a subscription.
    pub fn serialize_tail(&self) -> (r: Vec<u8>)
        ensures
            r@ == self.tail(),
            r@.len() == 28,
    {
        let mode: u32 = match self.trans_mode {
            NotificationTransmissionMode::OnChange => 4,
            NotificationTransmissionMode::Cyclic => 3,
        };
        let mut out: Vec<u8> = Vec::new();
        put_u32(&mut out, mode);
        put_u32(&mut out, to_ticks(self.max_delay));
        put_u32(&mut out, to_ticks(self.cycle_time));
        put_zeros(&mut out, 16);
        assert(out@ =~= self.tail());
        out
    }
}

fn to_ticks(d: Duration) -> (r: u32)
    ensures
        r == ticks(d),
{
    let nanos: u128 = d.secs as u128 * 1_000_000_000 + d.nanos as u128;
    ((nanos / 100) % 0x1_0000_0000) as u32
}

/// Subscribes to the symbols of a PLC.
pub trait NotificationBackend {
    fn subscribe(&self, attrs: &NotifAttrs, meta: &SymbolMeta) -> (r: Result<NotifHandle, ClientError>);

    fn unsubscribe(&self, handle: NotifHandle) -> (r: Result<(), ClientError>);

    /// The next notification: nothing when there will be no more.
    fn recv_timeout(&self, timeout: Duration) -> (r: Result<Option<DispatchBatch>, ClientError>);
}

/// The samples of a notification: the subscription of each, and its bytes.
#[derive(Debug)]
pub struct DispatchBatch {
    pub samples: Vec<(NotifHandle, Vec<u8>)>,
}

pub open spec fn sample_views(samples: Seq<(NotifHandle, Vec<u8>)>) -> Seq<(u32, Seq<u8>)> {
    samples.map_values(|p: (NotifHandle, Vec<u8>)| (p.0, p.1@))
}

impl View for DispatchBatch {
    type V = Seq<(u32, Seq<u8>)>;

    open spec fn view(&self) -> Seq<(u32, Seq<u8>)> {
        sample_views(self.samples@)
    }
}

/// What is subscribed to, and how.
#[derive(Debug)]
pub struct Subscription {
    pub def: CustomMetricDef,
    pub meta: SymbolMeta,
    pub attrs: NotifAttrs,
}

pub struct SubscriptionView {
    pub def: CustomMetricDefView,
    pub meta: SymbolMetaView,
    pub attrs: NotifAttrs,
}

impl View for Subscription {
    type V = SubscriptionView;

    open spec fn view(&self) -> SubscriptionView {
        SubscriptionView { def: self.def@, meta: self.meta@, attrs: self.attrs }
    }
}

/// What [`Notifier::reconcile`] did, by symbol.
#[derive(Debug, PartialEq, Eq)]
pub struct ReconcileReport {
    pub added: Vec<String>,
    pub removed: Vec<String>,
    pub changed: Vec<String>,
}

/// The subscriptions, by handle and by symbol.
pub struct Notifier<B: NotificationBackend> {
    backend: Arc<B>,
    subs: IdMap<Subscription>,
    by_symbol: KeyMap<String, u32>,
}

pub struct NotifierView {
    pub subs: Map<u32, SubscriptionView>,
    pub by_symbol: Map<Seq<char>, u32>,
}

impl<B: NotificationBackend> View for Notifier<B> {
    type V = NotifierView;

    closed spec fn view(&self) -> NotifierView {
        NotifierView { subs: self.subs@, by_symbol: self.by_symbol@ }
    }
}

impl NotifierView {
    /// Each symbol has a subscription, which is to that symbol.
    pub open spec fn linked(self) -> bool {
        forall|s: Seq<char>| #[trigger]
            self.by_symbol.dom().contains(s) ==> self.subs.dom().contains(self.by_symbol[s])
                && self.subs[self.by_symbol[s]].def.symbol == s
    }

    /// The symbol has a subscription.
    pub open spec fn known(self, s: Seq<char>) -> bool {
        self.by_symbol.dom().contains(s) && self.subs.dom().contains(self.by_symbol[s])
    }

    /// How the symbol is subscribed to.
    pub open spec fn attrs(self, s: Seq<char>) -> NotifAttrs {
        self.subs[self.by_symbol[s]].attrs
    }

    /// With a new subscription.
    pub open spec fn with(self, h: u32, sub: SubscriptionView) -> NotifierView {
        NotifierView { subs: self.subs.insert(h, sub), by_symbol: self.by_symbol.insert(sub.def.symbol, h) }
    }

    /// Without a subscription.
    pub open spec fn without(self, h: u32) -> NotifierView {
        NotifierView {
            subs: self.subs.remove(h),
            by_symbol: if self.subs.dom().contains(h) {
                self.by_symbol.remove(self.subs[h].def.symbol)
            } else {
                self.by_symbol
            },
        }
    }

    /// Without some subscriptions.
    pub open spec fn without_all(self, handles: Seq<u32>) -> NotifierView
        decreases handles.len(),
    {
        if handles.len() == 0 {
            self
        } else {
            self.without_all(handles.drop_last()).without(handles.last())
        }
    }

    /// The symbol is subscribed to and no longer wanted.
    pub open spec fn outdated(self, m: Map<Seq<char>, SubscriptionView>, s: Seq<char>) -> bool {
        self.known(s) && !m.dom().contains(s)
    }

    /// The symbol is subscribed to otherwise than wanted.
    pub open spec fn different(self, m: Map<Seq<char>, SubscriptionView>, s: Seq<char>) -> bool {
        self.known(s) && m.dom().contains(s) && self.attrs(s) != m[s].attrs
    }

    /// The symbol is subscribed to as wanted.
    pub open spec fn unchanged(self, m: Map<Seq<char>, SubscriptionView>, s: Seq<char>) -> bool {
        self.known(s) && m.dom().contains(s) && self.attrs(s) == m[s].attrs
    }

    /// The symbol is wanted and not yet subscribed to.
    pub open spec fn missing(self, m: Map<Seq<char>, SubscriptionView>, s: Seq<char>) -> bool {
        m.dom().contains(s) && !self.known(s)
    }

    /// The subscription of the symbol ends: it is outdated or different.
    pub open spec fn ending(self, m: Map<Seq<char>, SubscriptionView>, s: Seq<char>) -> bool {
        self.outdated(m, s) || self.different(m, s)
    }

    /// The symbol gets a new subscription: it is missing or different.
    pub open spec fn beginning(self, m: Map<Seq<char>, SubscriptionView>, s: Seq<char>) -> bool {
        self.missing(m, s) || self.different(m, s)
    }

    /// No two symbols have the same handle.
    pub open spec fn own_handles(self) -> bool {
        forall|s: Seq<char>, t: Seq<char>|
            #![trigger self.by_symbol.dom().contains(s), self.by_symbol.dom().contains(t)]
            self.by_symbol.dom().contains(s) && self.by_symbol.dom().contains(t) && s != t ==> self.by_symbol[s]
                != self.by_symbol[t]
    }

    /// A handle that a symbol has is the handle of the symbol that its subscription is to.
    spec fn rooted(self) -> bool {
        forall|s: Seq<char>| #[trigger]
            self.by_symbol.dom().contains(s) ==> self.subs.dom().contains(self.by_symbol[s]) && {
                let t = self.subs[self.by_symbol[s]].def.symbol;
                self.by_symbol.dom().contains(t) && self.by_symbol[t] == self.by_symbol[s]
            }
    }

    /// Exactly what is wanted is subscribed to.
    pub open spec fn settled(self, m: Map<Seq<char>, SubscriptionView>) -> bool {
        &&& self.linked()
        &&& self.by_symbol.dom() == m.dom()
        &&& forall|s: Seq<char>| #[trigger] m.dom().contains(s) ==> self.attrs(s) == m[s].attrs
    }
}

/// What is wanted, by symbol: the last definition of each, or why one of them cannot be.
pub open spec fn wanted(desired: Seq<(CustomMetricDefView, SymbolMetaView)>) -> Result<
    Map<Seq<char>, SubscriptionView>,
    ClientErrorView,
>
    decreases desired.len(),
{
    if desired.len() == 0 {
        Ok(Map::empty())
    } else {
        let (def, meta) = desired.last();
        match wanted(desired.drop_last()) {
            Err(e) => Err(e),
            Ok(m) => match attrs_of(def, meta.size) {
                Err(e) => Err(e),
                Ok(attrs) => Ok(m.insert(def.symbol, SubscriptionView { def, meta, attrs })),
            },
        }
    }
}

pub open spec fn desired_views(desired: Seq<(CustomMetricDef, SymbolMeta)>) -> Seq<
    (CustomMetricDefView, SymbolMetaView),
> {
    desired.map_values(|p: (CustomMetricDef, SymbolMeta)| (p.0@, p.1@))
}

pub open spec fn names(v: Seq<String>) -> Seq<Seq<char>> {
    v.map_values(|s: String| s@)
}

/// Whether a report says what was done.
pub open spec fn reports(
    r: ReconcileReport,
    v: NotifierView,
    m: Map<Seq<char>, SubscriptionView>,
) -> bool {
    &&& lists(names(r.added@), Set::new(|s: Seq<char>| v.missing(m, s)))
    &&& lists(names(r.removed@), Set::new(|s: Seq<char>| v.outdated(m, s)))
    &&& lists(names(r.changed@), Set::new(|s: Seq<char>| v.different(m, s)))
}

/// Whether everything is subscribed to as wanted already.
pub open spec fn nothing_to_do(v: NotifierView, m: Map<Seq<char>, SubscriptionView>) -> bool {
    forall|s: Seq<char>|
        !(#[trigger] v.missing(m, s)) && !v.outdated(m, s) && !v.different(m, s)
}

/// The subscription is one of those wanted.
pub open spec fn is_wanted(sub: SubscriptionView, m: Map<Seq<char>, SubscriptionView>) -> bool {
    exists|s: Seq<char>| #[trigger] m.dom().contains(s) && m[s] == sub
}

/// Whether `h` is the handle of a symbol whose subscription ends.
pub open spec fn ends_handle(v: NotifierView, m: Map<Seq<char>, SubscriptionView>, h: u32) -> bool {
    exists|s: Seq<char>| #[trigger] v.ending(m, s) && v.by_symbol[s] == h
}

/// From `v` to `w`, no subscriptions went but those that end, and none came but those wanted.
pub open spec fn moved_towards(v: NotifierView, m: Map<Seq<char>, SubscriptionView>, w: NotifierView) -> bool {
    &&& forall|h: u32| #[trigger]
        v.subs.dom().contains(h) && !w.subs.dom().contains(h) ==> ends_handle(v, m, h)
    &&& forall|h: u32| #[trigger]
        w.subs.dom().contains(h) ==> (v.subs.dom().contains(h) && w.subs[h] == v.subs[h]) || is_wanted(w.subs[h], m)
}

/// What reconciling leads to from `v`: what was subscribed to as wanted keeps its handle, what is
/// wanted is what has a handle, and, if the backend gave each symbol a handle of its own, all is
/// as wanted: what was subscribed to as wanted has the subscription that it had, and what is new
/// has the one wanted.
pub open spec fn reconciled(v: NotifierView, m: Map<Seq<char>, SubscriptionView>, w: NotifierView) -> bool {
    &&& forall|s: Seq<char>| #[trigger]
        v.unchanged(m, s) ==> w.by_symbol.dom().contains(s) && w.by_symbol[s] == v.by_symbol[s]
    &&& w.by_symbol.dom() == m.dom()
    &&& w.own_handles() ==> {
        &&& w.settled(m)
        &&& forall|s: Seq<char>| #[trigger]
            v.unchanged(m, s) ==> w.subs[w.by_symbol[s]] == v.subs[v.by_symbol[s]]
        &&& forall|s: Seq<char>| #[trigger] v.beginning(m, s) ==> w.subs[w.by_symbol[s]] == m[s]
    }
}

/// The backend was asked to end the subscription `h`, and did.
pub open spec fn ended_by<B: NotificationBackend>(backend: B, h: u32) -> bool {
    call_ensures(B::unsubscribe, (&backend, h), Ok(()))
}

/// The backend was asked to end the subscription `h`, and refused.
pub open spec fn end_refused_by<B: NotificationBackend>(backend: B, h: u32, e: ClientError) -> bool {
    call_ensures(B::unsubscribe, (&backend, h), Err(e))
}

/// The backend was asked for the subscription `sub`, and gave it the handle `h`.
pub open spec fn given_by<B: NotificationBackend>(backend: B, sub: SubscriptionView, h: u32) -> bool {
    exists|meta: SymbolMeta|
        meta@ == sub.meta && #[trigger] call_ensures(B::subscribe, (&backend, &sub.attrs, &meta), Ok(h))
}

/// The backend was asked for the subscription `sub`, and refused.
pub open spec fn refused_by<B: NotificationBackend>(backend: B, sub: SubscriptionView, e: ClientError) -> bool {
    exists|meta: SymbolMeta|
        meta@ == sub.meta && #[trigger] call_ensures(B::subscribe, (&backend, &sub.attrs, &meta), Err(e))
}

/// The backend ended each subscription that ends.
pub open spec fn all_ended<B: NotificationBackend>(
    backend: B,
    v: NotifierView,
    m: Map<Seq<char>, SubscriptionView>,
) -> bool {
    forall|s: Seq<char>| #[trigger] v.ending(m, s) ==> ended_by(backend, v.by_symbol[s])
}

/// Reconciling from `v` stopped at `w` because the backend refused to end the subscription of
/// `s`. The backend ended those of all other symbols that went; those that are left have the
/// handles that they had.
pub open spec fn stopped_ending<B: NotificationBackend>(
    backend: B,
    v: NotifierView,
    m: Map<Seq<char>, SubscriptionView>,
    w: NotifierView,
    s: Seq<char>,
    e: ClientError,
) -> bool {
    &&& v.ending(m, s)
    &&& end_refused_by(backend, v.by_symbol[s], e)
    &&& v.linked() ==> {
        &&& !w.by_symbol.dom().contains(s)
        &&& forall|t: Seq<char>| #[trigger]
            w.by_symbol.dom().contains(t) ==> v.by_symbol.dom().contains(t) && w.by_symbol[t] == v.by_symbol[t]
        &&& forall|t: Seq<char>| #[trigger]
            v.by_symbol.dom().contains(t) && !w.by_symbol.dom().contains(t) && t != s ==> ended_by(
                backend,
                v.by_symbol[t],
            )
    }
}

/// Reconciling from `v` stopped at `w` because the backend refused the subscription of `s`. All
/// that ends was ended before. The symbols that are left are subscribed to as wanted since before,
/// or their subscriptions are wanted and were given by the backend.
pub open spec fn stopped_beginning<B: NotificationBackend>(
    backend: B,
    v: NotifierView,
    m: Map<Seq<char>, SubscriptionView>,
    w: NotifierView,
    s: Seq<char>,
    e: ClientError,
) -> bool {
    &&& v.beginning(m, s)
    &&& refused_by(backend, m[s], e)
    &&& all_ended(backend, v, m)
    &&& v.linked() ==> {
        &&& !w.by_symbol.dom().contains(s)
        &&& forall|t: Seq<char>| #[trigger]
            w.by_symbol.dom().contains(t) ==> (v.unchanged(m, t) && w.by_symbol[t] == v.by_symbol[t]) || (
            v.beginning(m, t) && given_by(backend, m[t], w.by_symbol[t]))
    }
}

/// Reconciling from `v` stopped at `w` because the backend refused something with `e`.
pub open spec fn stopped<B: NotificationBackend>(
    backend: B,
    v: NotifierView,
    m: Map<Seq<char>, SubscriptionView>,
    w: NotifierView,
    e: ClientError,
) -> bool {
    exists|s: Seq<char>|
        #![trigger v.ending(m, s)]
        #![trigger v.beginning(m, s)]
        stopped_ending(backend, v, m, w, s, e) || stopped_beginning(backend, v, m, w, s, e)
}

/// What a sample of a subscription gives.
pub open spec fn sample_entry(v: NotifierView, h: u32, data: Seq<u8>, now: Timestamp) -> Option<MetricEntryView> {
    if !v.subs.dom().contains(h) {
        None
    } else {
        match scalar(v.subs[h].meta.data_type_name, data) {
            None => None,
            Some(value) => Some(
                MetricEntryView { source: "client-notify"@, ..entry_of(v.subs[h].def, value, now) },
            ),
        }
    }
}

/// What the samples of a notification give, in order.
pub open spec fn sample_entries(v: NotifierView, samples: Seq<(u32, Seq<u8>)>, now: Timestamp) -> Seq<
    MetricEntryView,
>
    decreases samples.len(),
{
    if samples.len() == 0 {
        Seq::empty()
    } else {
        let before = sample_entries(v, samples.drop_last(), now);
        match sample_entry(v, samples.last().0, samples.last().1, now) {
            Some(e) => before.push(e),
            None => before,
        }
    }
}

/// Collects what is wanted.
fn collect(desired: Vec<(CustomMetricDef, SymbolMeta)>) -> (r: Result<KeyMap<String, Subscription>, ClientError>)
    ensures
        match r {
            Ok(m) => wanted(desired_views(desired@)) == Ok::<Map<Seq<char>, SubscriptionView>, ClientErrorView>(m@),
            Err(e) => wanted(desired_views(desired@)) == Err::<Map<Seq<char>, SubscriptionView>, ClientErrorView>(
                e@,
            ),
        },
{
    let ghost all = desired_views(desired@);
    let mut m: KeyMap<String, Subscription> = KeyMap::new();
    assert(all.take(0) =~= Seq::empty());
    for p in it: desired.into_iter()
        invariant
            it.seq() == desired@,
            all == desired_views(desired@),
            wanted(all.take(it.index() as int)) == Ok::<Map<Seq<char>, SubscriptionView>, ClientErrorView>(m@),
    {
        let ghost n = it.index() as int;
        let ghost view = (p.0@, p.1@);
        assert(all[n] == view);
        assert(all.take(n + 1).drop_last() =~= all.take(n));
        assert(all.take(n + 1).last() == view);
        let (def, meta) = p;
        match NotifAttrs::from_def(&def, meta.size) {
            Ok(attrs) => {
                m.insert(def.symbol.clone(), Subscription { def, meta, attrs });
            },
            Err(e) => {
                proof {
                    lemma_wanted_fails(all, n + 1);
                }
                return Err(e);
            },
        }
    }
    assert(all.take(all.len() as int) =~= all);
    Ok(m)
}

/// A definition that cannot be wanted makes the whole list fail.
proof fn lemma_wanted_fails(desired: Seq<(CustomMetricDefView, SymbolMetaView)>, n: int)
    requires
        0 <= n <= desired.len(),
        wanted(desired.take(n)) is Err,
    ensures
        wanted(desired) == wanted(desired.take(n)),
    decreases desired.len(),
{
    if n == desired.len() {
        assert(desired.take(n) =~= desired);
    } else {
        assert(desired.drop_last().take(n) =~= desired.take(n));
        lemma_wanted_fails(desired.drop_last(), n);
    }
}

/// What is wanted of a symbol is wanted under its name and with its settings.
pub open spec fn consistent(m: Map<Seq<char>, SubscriptionView>) -> bool {
    forall|s: Seq<char>| #[trigger]
        m.dom().contains(s) ==> m[s].def.symbol == s && attrs_of(m[s].def, m[s].meta.size) == Ok::<
            NotifAttrs,
            ClientErrorView,
        >(m[s].attrs)
}

proof fn lemma_wanted_is_consistent(desired: Seq<(CustomMetricDefView, SymbolMetaView)>)
    ensures
        wanted(desired) matches Ok(m) ==> consistent(m),
    decreases desired.len(),
{
    if desired.len() > 0 {
        lemma_wanted_is_consistent(desired.drop_last());
    }
}

/// A subscription that ends.
struct Ending {
    symbol: String,
    handle: u32,
}

spec fn ending_names(v: Seq<Ending>) -> Seq<Seq<char>> {
    v.map_values(|e: Ending| e.symbol@)
}

spec fn ending_handles(v: Seq<Ending>) -> Seq<u32> {
    v.map_values(|e: Ending| e.handle)
}

/// The subscriptions that end are those of symbols that are outdated or different.
spec fn ends_rightly(v: NotifierView, m: Map<Seq<char>, SubscriptionView>, endings: Seq<Ending>) -> bool {
    &&& lists(ending_names(endings), Set::new(|s: Seq<char>| v.ending(m, s)))
    &&& forall|j: int| 0 <= j < endings.len() ==> (#[trigger] endings[j]).handle == v.by_symbol[endings[j].symbol@]
}

/// What is to be done to get from the present to what is wanted.
struct Plan {
    endings: Vec<Ending>,
    removed: Vec<String>,
    changed: KeySet<String>,
}

/// From `v` to `w`, only subscriptions that are wanted were added.
spec fn added_to(v: NotifierView, m: Map<Seq<char>, SubscriptionView>, w: NotifierView) -> bool {
    &&& forall|s: Seq<char>|
        !m.dom().contains(s) ==> (#[trigger] w.by_symbol.dom().contains(s) == v.by_symbol.dom().contains(s))
    &&& forall|s: Seq<char>| #[trigger]
        w.by_symbol.dom().contains(s) && !m.dom().contains(s) ==> w.by_symbol[s] == v.by_symbol[s]
    &&& forall|h: u32| v.subs.dom().contains(h) ==> #[trigger] w.subs.dom().contains(h)
    &&& forall|h: u32| #[trigger]
        w.subs.dom().contains(h) ==> (v.subs.dom().contains(h) && w.subs[h] == v.subs[h]) || is_wanted(w.subs[h], m)
}

/// The symbol leads to a subscription that is wanted.
spec fn serves(w: NotifierView, m: Map<Seq<char>, SubscriptionView>, s: Seq<char>) -> bool {
    w.by_symbol.dom().contains(s) && w.subs.dom().contains(w.by_symbol[s]) && is_wanted(w.subs[w.by_symbol[s]], m)
}

proof fn lemma_adding(
    v: NotifierView,
    m: Map<Seq<char>, SubscriptionView>,
    before: NotifierView,
    h: u32,
    s: Seq<char>,
)
    requires
        consistent(m),
        m.dom().contains(s),
        added_to(v, m, before),
    ensures
        added_to(v, m, before.with(h, m[s])),
        serves(before.with(h, m[s]), m, s),
{
    let w = before.with(h, m[s]);
    assert(m[s].def.symbol == s);
    assert(is_wanted(m[s], m));
    assert forall|k: u32| #[trigger] w.subs.dom().contains(k) implies (v.subs.dom().contains(k) && w.subs[k]
        == v.subs[k]) || is_wanted(w.subs[k], m) by {
        if k != h {
            assert(before.subs.dom().contains(k));
        }
    }
    assert forall|k: u32| v.subs.dom().contains(k) implies #[trigger] w.subs.dom().contains(k) by {
        assert(before.subs.dom().contains(k));
    }
    assert forall|t: Seq<char>| !m.dom().contains(t) implies (#[trigger] w.by_symbol.dom().contains(t)
        == v.by_symbol.dom().contains(t)) by {
        assert(before.by_symbol.dom().contains(t) == v.by_symbol.dom().contains(t));
    }
    assert forall|t: Seq<char>| #[trigger]
        w.by_symbol.dom().contains(t) && !m.dom().contains(t) implies w.by_symbol[t] == v.by_symbol[t] by {
        assert(before.by_symbol.dom().contains(t));
    }
}

proof fn lemma_adding_serves(
    m: Map<Seq<char>, SubscriptionView>,
    before: NotifierView,
    h: u32,
    s: Seq<char>,
    t: Seq<char>,
)
    requires
        consistent(m),
        m.dom().contains(s),
        serves(before, m, t),
    ensures
        serves(before.with(h, m[s]), m, t),
{
    assert(m[s].def.symbol == s);
    assert(is_wanted(m[s], m));
}

/// None of what is wanted has a handle.
spec fn unknown(v: NotifierView, m: Map<Seq<char>, SubscriptionView>) -> bool {
    forall|s: Seq<char>| #[trigger] m.dom().contains(s) ==> !v.by_symbol.dom().contains(s)
}

proof fn lemma_adding_roots(before: NotifierView, h: u32, sub: SubscriptionView)
    requires
        before.rooted(),
        !before.by_symbol.dom().contains(sub.def.symbol),
    ensures
        before.with(h, sub).rooted(),
{
    let w = before.with(h, sub);
    assert forall|s: Seq<char>| #[trigger] w.by_symbol.dom().contains(s) implies w.subs.dom().contains(w.by_symbol[s])
        && {
        let t = w.subs[w.by_symbol[s]].def.symbol;
        w.by_symbol.dom().contains(t) && w.by_symbol[t] == w.by_symbol[s]
    } by {
        if s != sub.def.symbol {
            assert(before.by_symbol.dom().contains(s));
            assert(before.by_symbol.dom().contains(before.subs[before.by_symbol[s]].def.symbol));
        }
    }
}

/// With a handle of its own, each symbol has a subscription to itself.
proof fn lemma_own_roots(w: NotifierView)
    requires
        w.rooted(),
        w.own_handles(),
    ensures
        w.linked(),
{
    assert forall|s: Seq<char>| #[trigger] w.by_symbol.dom().contains(s) implies w.subs.dom().contains(w.by_symbol[s])
        && w.subs[w.by_symbol[s]].def.symbol == s by {
        assert(w.by_symbol.dom().contains(w.subs[w.by_symbol[s]].def.symbol));
    }
}

/// Ending the subscriptions of some symbols leaves the other symbols as they were.
proof fn lemma_endings(v: NotifierView, endings: Seq<(Seq<char>, u32)>)
    requires
        v.linked(),
        keys_of(endings).no_duplicates(),
        forall|j: int|
            0 <= j < endings.len() ==> v.by_symbol.dom().contains((#[trigger] endings[j]).0) && v.by_symbol[endings[j].0]
                == endings[j].1,
    ensures
        ({
            let w = v.without_all(Seq::new(endings.len(), |j: int| endings[j].1));
            &&& w.linked()
            &&& forall|s: Seq<char>| #[trigger]
                w.by_symbol.dom().contains(s) == (v.by_symbol.dom().contains(s) && !keys_of(endings).contains(s))
            &&& forall|s: Seq<char>| #[trigger]
                w.by_symbol.dom().contains(s) ==> w.by_symbol[s] == v.by_symbol[s] && w.subs[w.by_symbol[s]]
                    == v.subs[v.by_symbol[s]]
        }),
    decreases endings.len(),
{
    let handles = Seq::new(endings.len(), |j: int| endings[j].1);
    if endings.len() > 0 {
        let front = endings.drop_last();
        assert(keys_of(endings) =~= keys_of(front).push(endings.last().0));
        assert(keys_of(front).no_duplicates()) by {
            assert forall|i: int, j: int|
                0 <= i < keys_of(front).len() && 0 <= j < keys_of(front).len() && i != j implies keys_of(front)[i]
                != keys_of(front)[j] by {
                assert(keys_of(endings)[i] != keys_of(endings)[j]);
            }
        }
        assert forall|j: int| 0 <= j < front.len() implies v.by_symbol.dom().contains((#[trigger] front[j]).0)
            && v.by_symbol[front[j].0] == front[j].1 by {
            assert(front[j] == endings[j]);
        }
        lemma_endings(v, front);
        assert(Seq::new(front.len(), |j: int| front[j].1) =~= handles.drop_last());
        let mid = v.without_all(handles.drop_last());
        let (s, h) = endings.last();
        assert(endings[endings.len() - 1] == (s, h));
        assert(!keys_of(front).contains(s)) by {
            if keys_of(front).contains(s) {
                let j = choose|j: int| 0 <= j < keys_of(front).len() && keys_of(front)[j] == s;
                assert(keys_of(endings)[j] == s);
                assert(keys_of(endings)[endings.len() - 1] == s);
            }
        }
        lemma_push_contains(keys_of(front), s);
        assert(mid.by_symbol.dom().contains(s));
        assert(mid.by_symbol[s] == h && mid.subs.dom().contains(h) && mid.subs[h].def.symbol == s);
        let w = mid.without(h);
        assert forall|t: Seq<char>| #[trigger] w.by_symbol.dom().contains(t) implies w.subs.dom().contains(
            w.by_symbol[t],
        ) && w.subs[w.by_symbol[t]].def.symbol == t by {
            assert(mid.by_symbol.dom().contains(t));
        }
        assert forall|t: Seq<char>| #[trigger] w.by_symbol.dom().contains(t) implies w.by_symbol[t] == v.by_symbol[t]
            && w.subs[w.by_symbol[t]] == v.subs[v.by_symbol[t]] by {
            assert(mid.by_symbol.dom().contains(t));
        }
        assert forall|t: Seq<char>| #[trigger]
            w.by_symbol.dom().contains(t) == (v.by_symbol.dom().contains(t) && !keys_of(endings).contains(t)) by {
            assert(mid.by_symbol.dom().contains(t) == (v.by_symbol.dom().contains(t) && !keys_of(front).contains(
                t,
            )));
            assert(keys_of(endings).contains(t) == (keys_of(front).contains(t) || t == s));
        }
    }
}

/// With the first `k` of the planned subscriptions ended, the symbols that are subscribed to as
/// wanted still are; with all of them ended, only those are left.
proof fn lemma_ended(v: NotifierView, m: Map<Seq<char>, SubscriptionView>, endings: Seq<Ending>, k: int)
    requires
        v.linked(),
        ends_rightly(v, m, endings),
        0 <= k <= endings.len(),
    ensures
        ({
            let w = v.without_all(ending_handles(endings).take(k));
            &&& w.linked()
            &&& forall|s: Seq<char>| #[trigger]
                v.unchanged(m, s) ==> w.by_symbol.dom().contains(s) && w.by_symbol[s] == v.by_symbol[s]
                    && w.subs[w.by_symbol[s]] == v.subs[v.by_symbol[s]]
            &&& forall|s: Seq<char>| #[trigger]
                w.by_symbol.dom().contains(s) == (v.by_symbol.dom().contains(s) && !ending_names(endings).take(
                    k,
                ).contains(s))
            &&& forall|s: Seq<char>| #[trigger] w.by_symbol.dom().contains(s) ==> w.by_symbol[s] == v.by_symbol[s]
            &&& k == endings.len() ==> forall|s: Seq<char>| #[trigger]
                w.by_symbol.dom().contains(s) ==> v.unchanged(m, s)
        }),
{
    let pairs = Seq::new(k as nat, |j: int| (endings[j].symbol@, endings[j].handle));
    let all = ending_names(endings);
    assert(keys_of(pairs) =~= all.take(k));
    assert(Seq::new(pairs.len(), |j: int| pairs[j].1) =~= ending_handles(endings).take(k));
    assert forall|j: int| 0 <= j < pairs.len() implies v.by_symbol.dom().contains((#[trigger] pairs[j]).0)
        && v.by_symbol[pairs[j].0] == pairs[j].1 by {
        assert(all[j] == endings[j].symbol@);
        assert(all.contains(all[j]));
    }
    lemma_endings(v, pairs);
    let w = v.without_all(ending_handles(endings).take(k));
    assert forall|s: Seq<char>| #[trigger] v.unchanged(m, s) implies w.by_symbol.dom().contains(s) && w.by_symbol[s]
        == v.by_symbol[s] && w.subs[w.by_symbol[s]] == v.subs[v.by_symbol[s]] by {
        if keys_of(pairs).contains(s) {
            let j = choose|j: int| 0 <= j < keys_of(pairs).len() && keys_of(pairs)[j] == s;
            assert(all[j] == s);
            assert(all.contains(s));
        }
        assert(w.by_symbol.dom().contains(s));
    }
    if k == endings.len() {
        assert(all.take(k) =~= all);
        assert forall|s: Seq<char>| #[trigger] w.by_symbol.dom().contains(s) implies v.unchanged(m, s) by {
            assert(v.known(s));
            assert(!all.contains(s));
        }
    }
}

/// Ending some subscriptions leaves the others as they were.
proof fn lemma_without_all(v: NotifierView, handles: Seq<u32>)
    ensures
        forall|h: u32| #[trigger]
            v.without_all(handles).subs.dom().contains(h) == (v.subs.dom().contains(h) && !handles.contains(h)),
        forall|h: u32| #[trigger]
            v.without_all(handles).subs.dom().contains(h) ==> v.without_all(handles).subs[h] == v.subs[h],
    decreases handles.len(),
{
    if handles.len() > 0 {
        let front = handles.drop_last();
        lemma_without_all(v, front);
        assert(front.push(handles.last()) =~= handles);
        lemma_push_contains(front, handles.last());
        assert forall|h: u32| #[trigger]
            v.without_all(handles).subs.dom().contains(h) == (v.subs.dom().contains(h) && !handles.contains(h)) by {
            assert(front.push(handles.last()).contains(h) == (front.contains(h) || h == handles.last()));
            assert(v.without_all(front).subs.dom().contains(h) == (v.subs.dom().contains(h) && !front.contains(h)));
        }
        assert forall|h: u32| #[trigger] v.without_all(handles).subs.dom().contains(h) implies v.without_all(
            handles,
        ).subs[h] == v.subs[h] by {
            assert(v.without_all(front).subs.dom().contains(h));
        }
    }
}

/// With the first `k` of the planned subscriptions ended, only subscriptions that end are gone.
proof fn lemma_ended_subs(v: NotifierView, m: Map<Seq<char>, SubscriptionView>, endings: Seq<Ending>, k: int)
    requires
        ends_rightly(v, m, endings),
        0 <= k <= endings.len(),
    ensures
        moved_towards(v, m, v.without_all(ending_handles(endings).take(k))),
        forall|h: u32| #[trigger]
            v.without_all(ending_handles(endings).take(k)).subs.dom().contains(h) ==> v.subs.dom().contains(h)
                && v.without_all(ending_handles(endings).take(k)).subs[h] == v.subs[h],
{
    let handles = ending_handles(endings).take(k);
    let w = v.without_all(handles);
    let all = ending_names(endings);
    lemma_without_all(v, handles);
    assert forall|h: u32| #[trigger] v.subs.dom().contains(h) && !w.subs.dom().contains(h) implies ends_handle(
        v,
        m,
        h,
    ) by {
        assert(handles.contains(h));
        let j = choose|j: int| 0 <= j < handles.len() && handles[j] == h;
        assert(endings[j].handle == h);
        assert(all[j] == endings[j].symbol@);
        assert(all.contains(all[j]));
        assert(v.ending(m, all[j]));
    }
}

/// Adding wanted subscriptions after the planned ones ended goes on towards what is wanted.
proof fn lemma_moved_on(
    v: NotifierView,
    m: Map<Seq<char>, SubscriptionView>,
    rest: Map<Seq<char>, SubscriptionView>,
    mid: NotifierView,
    w: NotifierView,
)
    requires
        moved_towards(v, m, mid),
        forall|h: u32| #[trigger]
            mid.subs.dom().contains(h) ==> v.subs.dom().contains(h) && mid.subs[h] == v.subs[h],
        forall|s: Seq<char>| #[trigger] rest.dom().contains(s) ==> m.dom().contains(s) && rest[s] == m[s],
        added_to(mid, rest, w),
    ensures
        moved_towards(v, m, w),
{
    assert forall|h: u32| #[trigger] v.subs.dom().contains(h) && !w.subs.dom().contains(h) implies ends_handle(
        v,
        m,
        h,
    ) by {
        assert(!mid.subs.dom().contains(h)) by {
            if mid.subs.dom().contains(h) {
                assert(w.subs.dom().contains(h));
            }
        }
    }
    assert forall|h: u32| #[trigger] w.subs.dom().contains(h) implies (v.subs.dom().contains(h) && w.subs[h]
        == v.subs[h]) || is_wanted(w.subs[h], m) by {
        if is_wanted(w.subs[h], rest) {
            let s = choose|s: Seq<char>| #[trigger] rest.dom().contains(s) && rest[s] == w.subs[h];
            assert(m.dom().contains(s) && m[s] == w.subs[h]);
        }
    }
}

/// Where nothing is to be done, nothing ends.
proof fn lemma_nothing_ends(v: NotifierView, m: Map<Seq<char>, SubscriptionView>, endings: Seq<Ending>)
    requires
        nothing_to_do(v, m),
        ends_rightly(v, m, endings),
    ensures
        endings.len() == 0,
        v.without_all(ending_handles(endings)) == v,
{
    if endings.len() > 0 {
        let s = ending_names(endings)[0];
        assert(ending_names(endings).contains(s));
        assert(!v.missing(m, s));
    }
}

/// What is left to subscribe to is what is missing or different.
proof fn lemma_rest(
    v: NotifierView,
    m: Map<Seq<char>, SubscriptionView>,
    rest: Map<Seq<char>, SubscriptionView>,
)
    requires
        forall|s: Seq<char>| #[trigger]
            rest.dom().contains(s) == (m.dom().contains(s) && !v.unchanged(m, s)),
    ensures
        forall|s: Seq<char>| #[trigger] rest.dom().contains(s) == (v.missing(m, s) || v.different(m, s)),
        forall|s: Seq<char>| #[trigger] v.beginning(m, s) ==> rest.dom().contains(s),
        nothing_to_do(v, m) ==> rest.dom().len() == 0,
{
    if nothing_to_do(v, m) {
        assert forall|s: Seq<char>| !(#[trigger] rest.dom().contains(s)) by {
            assert(!v.missing(m, s));
        }
        assert(rest.dom() =~= Set::empty());
    }
}

/// Where one of the planned subscriptions could not be ended, reconciling stopped there.
proof fn lemma_stopped_ending<B: NotificationBackend>(
    backend: B,
    v: NotifierView,
    m: Map<Seq<char>, SubscriptionView>,
    endings: Seq<Ending>,
    w: NotifierView,
    e: ClientError,
)
    requires
        ends_rightly(v, m, endings),
        exists|k: int|
            0 <= k < endings.len() && end_refused_by(backend, (#[trigger] endings[k]).handle, e) && w == v.without_all(
                ending_handles(endings).take(k + 1),
            ) && forall|j: int| 0 <= j < k ==> ended_by(backend, (#[trigger] endings[j]).handle),
    ensures
        stopped(backend, v, m, w, e),
        moved_towards(v, m, w),
        v.linked() ==> forall|s: Seq<char>| #[trigger]
            v.unchanged(m, s) ==> w.by_symbol.dom().contains(s) && w.by_symbol[s] == v.by_symbol[s],
{
    let k = choose|k: int|
        0 <= k < endings.len() && end_refused_by(backend, (#[trigger] endings[k]).handle, e) && w == v.without_all(
            ending_handles(endings).take(k + 1),
        ) && forall|j: int| 0 <= j < k ==> ended_by(backend, (#[trigger] endings[j]).handle);
    let all = ending_names(endings);
    let s = all[k];
    assert(all.contains(s));
    assert(v.ending(m, s));
    assert(endings[k].symbol@ == s);
    lemma_ended_subs(v, m, endings, k + 1);
    if v.linked() {
        lemma_ended(v, m, endings, k + 1);
        let front = all.take(k + 1);
        assert(front[k] == s);
        assert(front.contains(s));
        assert forall|t: Seq<char>| #[trigger]
            v.by_symbol.dom().contains(t) && !w.by_symbol.dom().contains(t) && t != s implies ended_by(
            backend,
            v.by_symbol[t],
        ) by {
            assert(front.contains(t));
            let j = choose|j: int| 0 <= j < front.len() && front[j] == t;
            assert(endings[j].symbol@ == t);
        }
    }
    assert(stopped_ending(backend, v, m, w, s, e));
}

/// Where one of the new subscriptions was refused, reconciling stopped there.
proof fn lemma_stopped_beginning<B: NotificationBackend>(
    backend: B,
    v: NotifierView,
    m: Map<Seq<char>, SubscriptionView>,
    rest: Map<Seq<char>, SubscriptionView>,
    mid: NotifierView,
    w: NotifierView,
    e: ClientError,
)
    requires
        all_ended(backend, v, m),
        forall|s: Seq<char>| #[trigger] rest.dom().contains(s) == (v.missing(m, s) || v.different(m, s)),
        forall|s: Seq<char>| #[trigger] rest.dom().contains(s) ==> rest[s] == m[s],
        added_to(mid, rest, w),
        v.linked() ==> unknown(mid, rest),
        v.linked() ==> forall|s: Seq<char>| #[trigger]
            mid.by_symbol.dom().contains(s) ==> v.unchanged(m, s) && mid.by_symbol[s] == v.by_symbol[s],
        unknown(mid, rest) ==> forall|s: Seq<char>| #[trigger]
            rest.dom().contains(s) && w.by_symbol.dom().contains(s) ==> given_by(backend, rest[s], w.by_symbol[s]),
        exists|s: Seq<char>| #[trigger]
            rest.dom().contains(s) && refused_by(backend, rest[s], e) && (unknown(mid, rest)
                ==> !w.by_symbol.dom().contains(s)),
    ensures
        stopped(backend, v, m, w, e),
{
    let s = choose|s: Seq<char>| #[trigger]
        rest.dom().contains(s) && refused_by(backend, rest[s], e) && (unknown(mid, rest)
            ==> !w.by_symbol.dom().contains(s));
    assert(v.beginning(m, s));
    if v.linked() {
        assert forall|t: Seq<char>| #[trigger] w.by_symbol.dom().contains(t) implies (v.unchanged(m, t)
            && w.by_symbol[t] == v.by_symbol[t]) || (v.beginning(m, t) && given_by(backend, m[t], w.by_symbol[t])) by {
            if rest.dom().contains(t) {
                assert(given_by(backend, rest[t], w.by_symbol[t]));
            } else {
                assert(mid.by_symbol.dom().contains(t));
            }
        }
    }
    assert(stopped_beginning(backend, v, m, w, s, e));
}

/// After the missing subscriptions were added, what is wanted is subscribed to.
proof fn lemma_reconciled(
    v: NotifierView,
    m: Map<Seq<char>, SubscriptionView>,
    rest: Map<Seq<char>, SubscriptionView>,
    mid: NotifierView,
    w: NotifierView,
    complete: bool,
)
    requires
        v.linked(),
        consistent(m),
        consistent(rest),
        forall|s: Seq<char>| #[trigger]
            rest.dom().contains(s) == (m.dom().contains(s) && !v.unchanged(m, s)),
        forall|s: Seq<char>| #[trigger] rest.dom().contains(s) ==> rest[s] == m[s],
        mid.linked(),
        forall|s: Seq<char>| #[trigger]
            v.unchanged(m, s) ==> mid.by_symbol.dom().contains(s) && mid.by_symbol[s] == v.by_symbol[s]
                && mid.subs[mid.by_symbol[s]] == v.subs[v.by_symbol[s]],
        forall|s: Seq<char>| #[trigger] mid.by_symbol.dom().contains(s) ==> v.unchanged(m, s),
        added_to(mid, rest, w),
        complete ==> forall|s: Seq<char>| #[trigger] rest.dom().contains(s) ==> serves(w, rest, s),
    ensures
        forall|s: Seq<char>| #[trigger]
            v.unchanged(m, s) ==> w.by_symbol.dom().contains(s) && w.by_symbol[s] == v.by_symbol[s],
        complete ==> w.by_symbol.dom() == m.dom(),
        complete && w.linked() ==> w.settled(m),
        complete && w.rooted() ==> reconciled(v, m, w),
{
    assert forall|s: Seq<char>| #[trigger] v.unchanged(m, s) implies w.by_symbol.dom().contains(s) && w.by_symbol[s]
        == v.by_symbol[s] by {
        assert(mid.by_symbol.dom().contains(s));
        assert(!rest.dom().contains(s));
        assert(w.by_symbol.dom().contains(s));
    }
    if complete {
        assert forall|s: Seq<char>| #[trigger] w.by_symbol.dom().contains(s) == m.dom().contains(s) by {
            if rest.dom().contains(s) {
                assert(serves(w, rest, s));
            } else {
                assert(w.by_symbol.dom().contains(s) == mid.by_symbol.dom().contains(s));
                if m.dom().contains(s) {
                    assert(v.unchanged(m, s));
                }
            }
        }
        assert(w.by_symbol.dom() =~= m.dom());
        if w.linked() {
            assert forall|s: Seq<char>| #[trigger] m.dom().contains(s) implies w.attrs(s) == m[s].attrs by {
                assert(w.by_symbol.dom().contains(s));
                let h = w.by_symbol[s];
                if rest.dom().contains(s) {
                    assert(serves(w, rest, s));
                    let t = choose|t: Seq<char>| #[trigger] rest.dom().contains(t) && rest[t] == w.subs[h];
                    assert(rest[t].def.symbol == t);
                } else {
                    assert(v.unchanged(m, s));
                    assert(mid.by_symbol.dom().contains(s));
                    assert(w.subs.dom().contains(h));
                    if is_wanted(w.subs[h], rest) {
                        let t = choose|t: Seq<char>| #[trigger] rest.dom().contains(t) && rest[t] == w.subs[h];
                        assert(rest[t].def.symbol == t);
                    }
                }
            }
        }
    }
    if complete && w.rooted() && w.own_handles() {
        lemma_own_roots(w);
        assert forall|s: Seq<char>| #[trigger] v.unchanged(m, s) implies w.subs[w.by_symbol[s]]
            == v.subs[v.by_symbol[s]] by {
            assert(w.by_symbol.dom().contains(s));
            assert(mid.by_symbol.dom().contains(s));
            let h = w.by_symbol[s];
            if is_wanted(w.subs[h], rest) {
                let t = choose|t: Seq<char>| #[trigger] rest.dom().contains(t) && rest[t] == w.subs[h];
                assert(rest[t].def.symbol == t);
            }
        }
        assert forall|s: Seq<char>| #[trigger] v.beginning(m, s) implies w.subs[w.by_symbol[s]] == m[s] by {
            assert(rest.dom().contains(s));
            assert(serves(w, rest, s));
            let h = w.by_symbol[s];
            let t = choose|t: Seq<char>| #[trigger] rest.dom().contains(t) && rest[t] == w.subs[h];
            assert(rest[t].def.symbol == t);
        }
    }
}

impl<B: NotificationBackend> Notifier<B> {
    /// The backend is not part of the view: it stays the same.
    pub closed spec fn through(&self) -> B {
        *self.backend
    }

    pub fn new(backend: Arc<B>) -> (r: Self)
        ensures
            r@ == (NotifierView { subs: Map::empty(), by_symbol: Map::empty() }),
            r.through() == *backend,
    {
        Notifier { backend, subs: IdMap::new(), by_symbol: KeyMap::new() }
    }

    /// Takes in the reply to a subscription.
    pub fn on_subscribed(
        &mut self,
        def: CustomMetricDef,
        meta: SymbolMeta,
        attrs: NotifAttrs,
        reply: Result<NotifHandle, ClientError>,
    ) -> (r: Result<NotifHandle, ClientError>)
        ensures
            r == reply,
            final(self)@ == (match reply {
                Ok(h) => old(self)@.with(h, (SubscriptionView { def: def@, meta: meta@, attrs })),
                Err(_) => old(self)@,
            }),
            final(self).through() == old(self).through(),
    {
        match reply {
            Ok(handle) => {
                let symbol = def.symbol.clone();
                self.subs.insert(handle, Subscription { def, meta, attrs });
                self.by_symbol.insert(symbol, handle);
                Ok(handle)
            },
            Err(e) => Err(e),
        }
    }

    /// Subscribes to a symbol: the backend is asked for it, and its reply is given. Without the
    /// settings of a notification nothing is asked of the backend.
    pub fn subscribe(&mut self, def: CustomMetricDef, meta: SymbolMeta) -> (r: Result<NotifHandle, ClientError>)
        ensures
            match attrs_of(def@, meta.size) {
                Err(e) => r matches Err(x) && x@ == e && final(self)@ == old(self)@,
                Ok(attrs) => {
                    &&& call_ensures(B::subscribe, (&old(self).through(), &attrs, &meta), r)
                    &&& final(self)@ == (match r {
                        Ok(h) => old(self)@.with(h, (SubscriptionView { def: def@, meta: meta@, attrs })),
                        Err(_) => old(self)@,
                    })
                },
            },
            final(self).through() == old(self).through(),
    {
        let attrs = match NotifAttrs::from_def(&def, meta.size) {
            Ok(attrs) => attrs,
            Err(e) => {
                return Err(e);
            },
        };
        let reply = self.backend.subscribe(&attrs, &meta);
        self.on_subscribed(def, meta, attrs, reply)
    }

    /// Ends a subscription: the backend is asked to, and its reply is given. It is forgotten
    /// whatever the backend replies.
    pub fn unsubscribe(&mut self, handle: NotifHandle) -> (r: Result<(), ClientError>)
        ensures
            call_ensures(B::unsubscribe, (&old(self).through(), handle), r),
            final(self)@ == old(self)@.without(handle),
            final(self).through() == old(self).through(),
    {
        match self.subs.remove(&handle) {
            Some(sub) => {
                self.by_symbol.remove(&sub.def.symbol);
            },
            None => {},
        }
        self.backend.unsubscribe(handle)
    }

    /// Plans what ends. What is subscribed to as wanted is taken out of `desired`.
    fn plan(&self, desired: &mut KeyMap<String, Subscription>) -> (r: Plan)
        ensures
            ends_rightly(self@, old(desired)@, r.endings@),
            lists(names(r.removed@), Set::new(|s: Seq<char>| self@.outdated(old(desired)@, s))),
            forall|s: Seq<char>| #[trigger] r.changed@.contains(s) == self@.different(old(desired)@, s),
            forall|s: Seq<char>| #[trigger]
                final(desired)@.dom().contains(s) == (old(desired)@.dom().contains(s) && !self@.unchanged(
                    old(desired)@,
                    s,
                )),
            forall|s: Seq<char>| #[trigger]
                final(desired)@.dom().contains(s) ==> final(desired)@[s] == old(desired)@[s],
    {
        let ghost v = self@;
        let ghost m = desired@;
        let n: usize = self.by_symbol.len();
        let ghost keys = keys_of(self.by_symbol.pairs());
        let mut endings: Vec<Ending> = Vec::new();
        let mut removed: Vec<String> = Vec::new();
        let mut changed: KeySet<String> = KeySet::new();
        let mut i: usize = 0;
        assert(ending_names(endings@) =~= Seq::empty());
        assert(names(removed@) =~= Seq::empty());
        while i < n
            invariant
                i <= n,
                n == self.by_symbol.pairs().len(),
                v == self@,
                keys == keys_of(self.by_symbol.pairs()),
                keys.no_duplicates(),
                ending_names(endings@).no_duplicates(),
                forall|s: Seq<char>| #[trigger]
                    ending_names(endings@).contains(s) == (keys.take(i as int).contains(s) && (v.outdated(m, s)
                        || v.different(m, s))),
                forall|j: int|
                    0 <= j < endings@.len() ==> (#[trigger] endings@[j]).handle == v.by_symbol[endings@[j].symbol@],
                names(removed@).no_duplicates(),
                forall|s: Seq<char>| #[trigger]
                    names(removed@).contains(s) == (keys.take(i as int).contains(s) && v.outdated(m, s)),
                forall|s: Seq<char>| #[trigger]
                    changed@.contains(s) == (keys.take(i as int).contains(s) && v.different(m, s)),
                forall|s: Seq<char>| #[trigger]
                    desired@.dom().contains(s) == (m.dom().contains(s) && !(keys.take(i as int).contains(s)
                        && v.unchanged(m, s))),
                forall|s: Seq<char>| #[trigger] desired@.dom().contains(s) ==> desired@[s] == m[s],
            decreases n - i,
        {
            let (symbol, handle) = self.by_symbol.entry_at(i);
            let ghost s = symbol@;
            let ghost ends_before = ending_names(endings@);
            let ghost removed_before = names(removed@);
            proof {
                lemma_take_push(keys, i as int);
                lemma_push_contains(ends_before, s);
                lemma_push_contains(removed_before, s);
                assert(keys[i as int] == s);
                assert(v.by_symbol.dom().contains(s) && v.by_symbol[s] == handle);
            }
            match self.subs.get(handle) {
                None => {
                    assert(!v.known(s));
                },
                Some(sub) => {
                    assert(v.known(s) && v.attrs(s) == sub.attrs);
                    let now = match desired.get(symbol) {
                        None => None,
                        Some(w) => Some(w.attrs),
                    };
                    assert(now == (if m.dom().contains(s) { Some(m[s].attrs) } else { None }));
                    match now {
                        None => {
                            endings.push(Ending { symbol: symbol.clone(), handle: *handle });
                            removed.push(symbol.clone());
                            assert(ending_names(endings@) =~= ends_before.push(s));
                            assert(names(removed@) =~= removed_before.push(s));
                            proof {
                                lemma_push_no_duplicates(ends_before, s);
                                lemma_push_no_duplicates(removed_before, s);
                            }
                        },
                        Some(attrs) => {
                            if attrs != sub.attrs {
                                endings.push(Ending { symbol: symbol.clone(), handle: *handle });
                                changed.insert(symbol.clone());
                                assert(ending_names(endings@) =~= ends_before.push(s));
                                proof {
                                    lemma_push_no_duplicates(ends_before, s);
                                }
                            } else {
                                desired.remove(symbol);
                            }
                        },
                    }
                },
            }
            i = i + 1;
        }
        proof {
            assert(keys.take(n as int) =~= keys);
            assert forall|s: Seq<char>| v.by_symbol.dom().contains(s) == #[trigger] keys.contains(s) by {}
        }
        Plan { endings, removed, changed }
    }

    /// The symbols of `wants` that are not changed ones.
    fn added_names(wants: &KeyMap<String, Subscription>, changed: &KeySet<String>) -> (r: Vec<String>)
        ensures
            lists(names(r@), Set::new(|s: Seq<char>| wants@.dom().contains(s) && !changed@.contains(s))),
    {
        Self::picked(wants, changed, false)
    }

    /// The symbols of `wants` that are changed ones.
    fn changed_names(wants: &KeyMap<String, Subscription>, changed: &KeySet<String>) -> (r: Vec<String>)
        ensures
            lists(names(r@), Set::new(|s: Seq<char>| wants@.dom().contains(s) && changed@.contains(s))),
    {
        Self::picked(wants, changed, true)
    }

    fn picked(wants: &KeyMap<String, Subscription>, changed: &KeySet<String>, which: bool) -> (r: Vec<String>)
        ensures
            lists(names(r@), Set::new(|s: Seq<char>| wants@.dom().contains(s) && changed@.contains(s) == which)),
    {
        let n: usize = wants.len();
        let ghost keys = keys_of(wants.pairs());
        let mut r: Vec<String> = Vec::new();
        let mut i: usize = 0;
        assert(names(r@) =~= Seq::empty());
        while i < n
            invariant
                i <= n,
                n == wants.pairs().len(),
                keys == keys_of(wants.pairs()),
                keys.no_duplicates(),
                names(r@).no_duplicates(),
                forall|s: Seq<char>| #[trigger]
                    names(r@).contains(s) == (keys.take(i as int).contains(s) && changed@.contains(s) == which),
            decreases n - i,
        {
            let (symbol, _) = wants.entry_at(i);
            let ghost s = symbol@;
            let ghost before = names(r@);
            proof {
                lemma_take_push(keys, i as int);
                lemma_push_contains(before, s);
                assert(keys[i as int] == s);
            }
            if changed.contains(symbol) == which {
                r.push(symbol.clone());
                assert(names(r@) =~= before.push(s));
                proof {
                    lemma_push_no_duplicates(before, s);
                }
            }
            i = i + 1;
        }
        proof {
            assert(keys.take(n as int) =~= keys);
            assert forall|s: Seq<char>| wants@.dom().contains(s) == #[trigger] keys.contains(s) by {}
        }
        r
    }

    /// Ends subscriptions, one after the other, until one cannot be ended.
    fn unsubscribe_all(&mut self, endings: &Vec<Ending>) -> (r: Result<(), ClientError>)
        ensures
            r is Ok ==> final(self)@ == old(self)@.without_all(ending_handles(endings@)),
            r matches Err(e) ==> exists|k: int|
                0 <= k < endings@.len() && end_refused_by(
                    old(self).through(),
                    (#[trigger] endings@[k]).handle,
                    e,
                ) && final(self)@ == old(self)@.without_all(ending_handles(endings@).take(k + 1)) && forall|j: int|
                    0 <= j < k ==> ended_by(old(self).through(), (#[trigger] endings@[j]).handle),
            endings@.len() == 0 ==> r is Ok,
            r is Ok ==> forall|j: int|
                0 <= j < endings@.len() ==> ended_by(old(self).through(), (#[trigger] endings@[j]).handle),
            final(self).through() == old(self).through(),
    {
        let ghost handles = ending_handles(endings@);
        let mut i: usize = 0;
        assert(handles.take(0) =~= Seq::empty());
        while i < endings.len()
            invariant
                i <= endings@.len(),
                handles == ending_handles(endings@),
                self@ == old(self)@.without_all(handles.take(i as int)),
                forall|j: int|
                    0 <= j < i ==> ended_by(old(self).through(), (#[trigger] endings@[j]).handle),
                self.through() == old(self).through(),
            decreases endings@.len() - i,
        {
            let handle: u32 = endings[i].handle;
            proof {
                assert(handles.take(i + 1).drop_last() =~= handles.take(i as int));
                assert(handles.take(i + 1).last() == handle);
            }
            let reply = self.unsubscribe(handle);
            i = i + 1;
            match reply {
                Ok(done) => {
                    assert(done == ());
                    assert(ended_by(old(self).through(), handle));
                },
                Err(e) => {
                    assert(endings@[i - 1].handle == handle);
                    assert(end_refused_by(old(self).through(), endings@[i - 1].handle, e));
                    assert(self@ == old(self)@.without_all(handles.take(i as int)));
                    return Err(e);
                },
            }
        }
        assert(handles.take(i as int) =~= handles);
        Ok(())
    }

    /// Subscribes to all that is wanted, one after the other, until one cannot be subscribed to.
    fn subscribe_all(&mut self, wants: &KeyMap<String, Subscription>) -> (r: Result<(), ClientError>)
        requires
            consistent(wants@),
        ensures
            added_to(old(self)@, wants@, final(self)@),
            r is Ok ==> forall|s: Seq<char>| #[trigger]
                wants@.dom().contains(s) ==> serves(final(self)@, wants@, s),
            wants@.dom().len() == 0 ==> r is Ok && final(self)@ == old(self)@,
            old(self)@.rooted() && unknown(old(self)@, wants@) ==> final(self)@.rooted(),
            r is Ok ==> forall|s: Seq<char>| #[trigger]
                wants@.dom().contains(s) ==> given_by(
                    old(self).through(),
                    wants@[s],
                    final(self)@.by_symbol[s],
                ),
            unknown(old(self)@, wants@) ==> forall|s: Seq<char>| #[trigger]
                wants@.dom().contains(s) && final(self)@.by_symbol.dom().contains(s) ==> given_by(
                    old(self).through(),
                    wants@[s],
                    final(self)@.by_symbol[s],
                ),
            r matches Err(e) ==> exists|s: Seq<char>| #[trigger]
                wants@.dom().contains(s) && refused_by(old(self).through(), wants@[s], e) && (unknown(
                    old(self)@,
                    wants@,
                ) ==> !final(self)@.by_symbol.dom().contains(s)),
            final(self).through() == old(self).through(),
    {
        let n: usize = wants.len();
        let ghost keys = keys_of(wants.pairs());
        let ghost m = wants@;
        let ghost v = self@;
        let mut i: usize = 0;
        assert forall|j: int| 0 <= j < keys.len() implies m.dom().contains(#[trigger] keys[j]) by {
            assert(keys.contains(keys[j]));
        }
        while i < n
            invariant
                i <= n,
                n == wants.pairs().len(),
                keys == keys_of(wants.pairs()),
                n == wants@.dom().len(),
                m == wants@,
                v == old(self)@,
                consistent(m),
                added_to(v, m, self@),
                forall|j: int| 0 <= j < i ==> serves(self@, m, #[trigger] keys[j]),
                i == 0 ==> self@ == v,
                keys.no_duplicates(),
                v.rooted() && unknown(v, m) ==> self@.rooted(),
                forall|j: int|
                    i <= j < n && unknown(v, m) ==> !self@.by_symbol.dom().contains(#[trigger] keys[j]),
                forall|j: int|
                    0 <= j < i ==> given_by(old(self).through(), m[#[trigger] keys[j]], self@.by_symbol[keys[j]]),
                self.through() == old(self).through(),
            decreases n - i,
        {
            let (symbol, sub) = wants.entry_at(i);
            let ghost s = symbol@;
            let ghost before = self@;
            assert(keys[i as int] == s);
            assert(m.dom().contains(s) && m[s] == sub@);
            let meta = sub.meta.clone();
            let ghost asked = meta;
            let reply = self.subscribe(sub.def.clone(), meta);
            match reply {
                Ok(h) => {
                    assert(self@ == before.with(h, m[s]));
                    proof {
                        lemma_adding(v, m, before, h, s);
                        if before.rooted() && !before.by_symbol.dom().contains(s) {
                            lemma_adding_roots(before, h, m[s]);
                        }
                        assert(asked@ == m[s].meta);
                        assert(call_ensures(B::subscribe, (&old(self).through(), &m[s].attrs, &asked), Ok(h)));
                        assert forall|j: int| 0 <= j < n && j != i implies #[trigger] keys[j] != s by {
                            assert(keys[i as int] == s);
                        }
                        assert forall|j: int| 0 <= j < i + 1 implies serves(self@, m, #[trigger] keys[j]) by {
                            if j < i {
                                assert(serves(before, m, keys[j]));
                                lemma_adding_serves(m, before, h, s, keys[j]);
                            }
                        }
                    }
                },
                Err(e) => {
                    proof {
                        assert(self@ == before);
                        assert(asked@ == m[s].meta);
                        assert(call_ensures(B::subscribe, (&old(self).through(), &m[s].attrs, &asked), Err(e)));
                        assert(wants@.dom().contains(s) && refused_by(old(self).through(), wants@[s], e));
                        if unknown(v, m) {
                            assert forall|t: Seq<char>| #[trigger]
                                wants@.dom().contains(t) && self@.by_symbol.dom().contains(t) implies given_by(
                                old(self).through(),
                                wants@[t],
                                self@.by_symbol[t],
                            ) by {
                                assert(keys.contains(t));
                                let j = choose|j: int| 0 <= j < keys.len() && keys[j] == t;
                                assert(j < i);
                                assert(given_by(old(self).through(), m[keys[j]], self@.by_symbol[keys[j]]));
                            }
                        }
                    }
                    return Err(e);
                },
            }
            i = i + 1;
        }
        proof {
            assert forall|s: Seq<char>| #[trigger] wants@.dom().contains(s) implies serves(self@, m, s) by {
                assert(keys.contains(s));
                let j = choose|j: int| 0 <= j < keys.len() && keys[j] == s;
                assert(serves(self@, m, keys[j]));
            }
            assert forall|s: Seq<char>| #[trigger] wants@.dom().contains(s) implies given_by(
                old(self).through(),
                m[s],
                self@.by_symbol[s],
            ) by {
                assert(keys.contains(s));
                let j = choose|j: int| 0 <= j < keys.len() && keys[j] == s;
                assert(given_by(old(self).through(), m[keys[j]], self@.by_symbol[keys[j]]));
            }
        }
        Ok(())
    }

    /// Brings the subscriptions in line with what is wanted: ends those that are not wanted, ends
    /// and renews those that are wanted otherwise, and adds the missing ones. With the settings of
    /// all that is wanted in order, it fails only by a refusal of the backend: it stops at the
    /// first one and gives its error. Unless it stops, the backend has ended each subscription
    /// that ends and given each new one its handle.
    pub fn reconcile(&mut self, desired: Vec<(CustomMetricDef, SymbolMeta)>) -> (r: Result<
        ReconcileReport,
        ClientError,
    >)
        ensures
            match wanted(desired_views(desired@)) {
                Err(e) => r matches Err(x) && x@ == e && final(self)@ == old(self)@,
                Ok(m) => {
                    &&& r matches Ok(report) ==> reports(report, old(self)@, m)
                    &&& nothing_to_do(old(self)@, m) ==> r is Ok && final(self)@ == old(self)@
                    &&& old(self)@.linked() ==> forall|s: Seq<char>| #[trigger]
                        old(self)@.unchanged(m, s) ==> final(self)@.by_symbol.dom().contains(s)
                            && final(self)@.by_symbol[s] == old(self)@.by_symbol[s]
                    &&& old(self)@.linked() && r is Ok ==> reconciled(old(self)@, m, final(self)@)
                    &&& r is Ok ==> all_ended(old(self).through(), old(self)@, m)
                    &&& r is Ok ==> forall|s: Seq<char>| #[trigger]
                        old(self)@.beginning(m, s) ==> given_by(
                            old(self).through(),
                            m[s],
                            final(self)@.by_symbol[s],
                        )
                    &&& r matches Err(e) ==> stopped(old(self).through(), old(self)@, m, final(self)@, e)
                    &&& moved_towards(old(self)@, m, final(self)@)
                },
            },
            final(self).through() == old(self).through(),
    {
        let ghost v = self@;
        let mut wants = match collect(desired) {
            Ok(m) => m,
            Err(e) => {
                return Err(e);
            },
        };
        let ghost m = wants@;
        proof {
            lemma_wanted_is_consistent(desired_views(desired@));
        }
        let plan = self.plan(&mut wants);
        let ghost rest = wants@;
        assert(consistent(rest)) by {
            assert forall|s: Seq<char>| #[trigger] rest.dom().contains(s) implies rest[s].def.symbol == s && attrs_of(
                rest[s].def,
                rest[s].meta.size,
            ) == Ok::<NotifAttrs, ClientErrorView>(rest[s].attrs) by {
                assert(m.dom().contains(s));
            }
        }
        let ended = self.unsubscribe_all(&plan.endings);
        let ghost mid = self@;
        proof {
            let handles = ending_handles(plan.endings@);
            assert(handles.take(handles.len() as int) =~= handles);
            if ended is Ok {
                lemma_ended_subs(v, m, plan.endings@, plan.endings@.len() as int);
                if v.linked() {
                    lemma_ended(v, m, plan.endings@, plan.endings@.len() as int);
                }
            } else {
                lemma_stopped_ending(self.through(), v, m, plan.endings@, mid, ended->Err_0);
            }
            if nothing_to_do(v, m) {
                lemma_nothing_ends(v, m, plan.endings@);
            }
        }
        match ended {
            Ok(_) => {},
            Err(e) => {
                return Err(e);
            },
        }
        proof {
            assert forall|s: Seq<char>| #[trigger] v.ending(m, s) implies ended_by(
                old(self).through(),
                v.by_symbol[s],
            ) by {
                let all = ending_names(plan.endings@);
                assert(all.contains(s));
                let j = choose|j: int| 0 <= j < all.len() && all[j] == s;
                assert(plan.endings@[j].symbol@ == s);
            }
        }
        let added = Self::added_names(&wants, &plan.changed);
        let changed = Self::changed_names(&wants, &plan.changed);
        let begun = self.subscribe_all(&wants);
        proof {
            lemma_rest(v, m, rest);
            lemma_moved_on(v, m, rest, mid, self@);
            if v.linked() {
                assert(unknown(mid, rest)) by {
                    assert forall|s: Seq<char>| #[trigger] rest.dom().contains(s) implies !mid.by_symbol.dom().contains(
                        s,
                    ) by {
                        assert(!v.unchanged(m, s));
                    }
                }
                assert(mid.rooted());
                lemma_reconciled(v, m, rest, mid, self@, begun is Ok);
            }
        }
        match begun {
            Ok(_) => {},
            Err(e) => {
                proof {
                    lemma_stopped_beginning(self.through(), v, m, rest, mid, self@, e);
                }
                return Err(e);
            },
        }
        Ok(ReconcileReport { added, removed: plan.removed, changed })
    }

    /// The metric of a sample; nothing if its subscription is not known or its bytes are no scalar
    /// of the type of the symbol.
    pub fn dispatch_sample(&self, handle: NotifHandle, data: &[u8], now: Timestamp) -> (r: Option<MetricEntry>)
        ensures
            (match r {
                Some(e) => Some(e@),
                None => None,
            }) == sample_entry(self@, handle, data@, now),
    {
        let sub = match self.subs.get(&handle) {
            Some(sub) => sub,
            None => {
                return None;
            },
        };
        match decode_scalar(&sub.meta.data_type_name, data) {
            None => None,
            Some(value) => {
                let mut entry = build_metric_entry_at(&sub.def, value, now);
                entry.source = String::from_str("client-notify");
                Some(entry)
            },
        }
    }

    /// The metrics of a notification.
    pub fn dispatch_batch(&self, batch: &DispatchBatch, now: Timestamp) -> (r: Vec<MetricEntry>)
        ensures
            metric_views(r@) == sample_entries(self@, batch@, now),
    {
        let ghost samples = batch@;
        let mut r: Vec<MetricEntry> = Vec::new();
        let mut i: usize = 0;
        assert(samples.take(0) =~= Seq::empty());
        assert(metric_views(r@) =~= Seq::empty());
        while i < batch.samples.len()
            invariant
                i <= batch.samples@.len(),
                samples == batch@,
                metric_views(r@) == sample_entries(self@, samples.take(i as int), now),
            decreases batch.samples@.len() - i,
        {
            let ghost before = metric_views(r@);
            proof {
                assert(samples.take(i + 1).drop_last() =~= samples.take(i as int));
                assert(samples.take(i + 1).last() == (batch.samples@[i as int].0, batch.samples@[i as int].1@));
            }
            match self.dispatch_sample(batch.samples[i].0, &batch.samples[i].1, now) {
                Some(entry) => {
                    let ghost view = entry@;
                    r.push(entry);
                    assert(metric_views(r@) =~= before.push(view));
                },
                None => {},
            }
            i = i + 1;
        }
        assert(samples.take(i as int) =~= samples);
        r
    }

    /// What taking in `received` gives: the metrics of a notification, none of them after an
    /// error, and nothing when there will be no more notifications.
    pub open spec fn gives(
        &self,
        received: Result<Option<DispatchBatch>, ClientError>,
        now: Timestamp,
        r: Option<Vec<MetricEntry>>,
    ) -> bool {
        match received {
            Ok(Some(batch)) => r matches Some(v) && metric_views(v@) == sample_entries(self@, batch@, now),
            Ok(None) => r is None,
            Err(_) => r matches Some(v) && v@.len() == 0,
        }
    }

    /// Takes in what came from the backend: gives the metrics of a notification, nothing of them
    /// after an error, and `None` when there will be no more notifications.
    pub fn on_received(&self, received: Result<Option<DispatchBatch>, ClientError>, now: Timestamp) -> (r: Option<
        Vec<MetricEntry>,
    >)
        ensures
            self.gives(received, now, r),
    {
        match received {
            Ok(Some(batch)) => Some(self.dispatch_batch(&batch, now)),
            Ok(None) => None,
            Err(_) => Some(Vec::new()),
        }
    }

    /// Waits up to a second for a notification from the backend and gives what taking in its reply
    /// gives: `None` only when the backend said that there will be no more notifications.
    pub fn receive(&self, now: Timestamp) -> (r: Option<Vec<MetricEntry>>)
        ensures
            exists|received: Result<Option<DispatchBatch>, ClientError>| #[trigger]
                call_ensures(
                    B::recv_timeout,
                    (&self.through(), (Duration { secs: 1, nanos: 0 })),
                    received,
                ) && self.gives(received, now, r),
    {
        let received = self.backend.recv_timeout(Duration::from_secs(1));
        assert(call_ensures(B::recv_timeout, (&self.through(), (Duration { secs: 1, nanos: 0 })), received));
        self.on_received(received, now)
    }
}

/// Reconciling towards wants in order never stops if the backend refuses nothing.
pub proof fn law_unrefused_reconciling_does_not_stop<B: NotificationBackend>(
    backend: B,
    v: NotifierView,
    m: Map<Seq<char>, SubscriptionView>,
    w: NotifierView,
    e: ClientError,
)
    requires
        forall|s: Seq<char>| #[trigger] v.ending(m, s) ==> !end_refused_by(backend, v.by_symbol[s], e),
        forall|s: Seq<char>| #[trigger] v.beginning(m, s) ==> !refused_by(backend, m[s], e),
    ensures
        !stopped(backend, v, m, w, e),
{
}

/// Reconciling a second time with the same wants does nothing, if the backend gave each symbol a
/// handle of its own: nothing is missing, outdated or different, and the report is empty.
pub proof fn law_reconciling_twice_does_nothing(
    v: NotifierView,
    m: Map<Seq<char>, SubscriptionView>,
    w: NotifierView,
    report: ReconcileReport,
)
    requires
        v.linked(),
        reconciled(v, m, w),
        w.own_handles(),
        reports(report, w, m),
    ensures
        nothing_to_do(w, m),
        report.added@.len() == 0,
        report.removed@.len() == 0,
        report.changed@.len() == 0,
{
    law_reconciling_is_idempotent(w, m);
    lemma_lists_nothing(names(report.added@), Set::new(|s: Seq<char>| w.missing(m, s)));
    lemma_lists_nothing(names(report.removed@), Set::new(|s: Seq<char>| w.outdated(m, s)));
    lemma_lists_nothing(names(report.changed@), Set::new(|s: Seq<char>| w.different(m, s)));
}

proof fn lemma_lists_nothing(all: Seq<Seq<char>>, of: Set<Seq<char>>)
    requires
        lists(all, of),
        forall|s: Seq<char>| !(#[trigger] of.contains(s)),
    ensures
        all.len() == 0,
{
    if all.len() > 0 {
        assert(all.contains(all[0]));
    }
}

/// Reconciling is idempotent: where exactly what is wanted is subscribed to, nothing is missing,
/// outdated or different.
pub proof fn law_reconciling_is_idempotent(v: NotifierView, m: Map<Seq<char>, SubscriptionView>)
    requires
        v.settled(m),
    ensures
        nothing_to_do(v, m),
{
    assert forall|s: Seq<char>|
        !(#[trigger] v.missing(m, s)) && !v.outdated(m, s) && !v.different(m, s) by {
        assert(v.by_symbol.dom().contains(s) == m.dom().contains(s));
    }
}

/// A handle that is not in use yet keeps each symbol with its own subscription.
pub proof fn law_new_handles_keep_symbols_linked(v: NotifierView, h: u32, sub: SubscriptionView)
    requires
        v.linked(),
        !v.subs.dom().contains(h),
    ensures
        v.with(h, sub).linked(),
{
    let w = v.with(h, sub);
    assert forall|s: Seq<char>| #[trigger] w.by_symbol.dom().contains(s) implies w.subs.dom().contains(w.by_symbol[s])
        && w.subs[w.by_symbol[s]].def.symbol == s by {
        if s != sub.def.symbol {
            assert(v.by_symbol.dom().contains(s));
        }
    }
}

/// Ending a subscription keeps the other symbols with theirs.
pub proof fn law_ending_keeps_symbols_linked(v: NotifierView, h: u32)
    requires
        v.linked(),
    ensures
        v.without(h).linked(),
{
    let w = v.without(h);
    assert forall|s: Seq<char>| #[trigger] w.by_symbol.dom().contains(s) implies w.subs.dom().contains(w.by_symbol[s])
        && w.subs[w.by_symbol[s]].def.symbol == s by {
        assert(v.by_symbol.dom().contains(s));
    }
}

/// Ending a new subscription leaves what was there before it.
pub proof fn law_unsubscribing_undoes_subscribing(v: NotifierView, h: u32, sub: SubscriptionView)
    requires
        !v.subs.dom().contains(h),
        !v.by_symbol.dom().contains(sub.def.symbol),
    ensures
        v.with(h, sub).without(h) == v,
{
    let w = v.with(h, sub).without(h);
    assert(w.subs =~= v.subs);
    assert(w.by_symbol =~= v.by_symbol);
}

} // verus!
