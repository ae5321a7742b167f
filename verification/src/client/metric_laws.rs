//! What the metrics of polled and notified symbols carry, and how symbols are subscribed to.
use vstd::prelude::*;

use crate::ads_client::{law_read_request_reads_back, AdsReadRequest};
use crate::ams::AmsHeader;
use crate::client::error::{ClientError, ClientErrorView};
use crate::client::notify::{
    attrs_of, millis, names, reports, sample_entries, sample_entry, wanted, DispatchBatch, NotifAttrs,
    NotificationBackend, Notifier, NotifierView, ReconcileReport, SubscriptionView,
};
use crate::client::notify_wire::{
    notification_samples, samples_after, subscribe_reply, subscribe_request, unsubscribe_reply, NotificationSink,
};
use crate::client::poll::{after_read, build_metric_entry_at, entry_of, PollStepView, Poller};
use crate::client::scalar_laws::names_integer;
use crate::client::{PlcValue, SymbolMetaView, SymbolReader};
use crate::config::{
    CustomMetricDef, CustomMetricDefView, MetricKindConfig, NotificationTransmissionMode,
};
use crate::custom_metric_poller::PollMetricConfigView;
use crate::encoding::lemma_dword_read;
use crate::error::AdsErrorView;
use crate::models::{metric_views, JsonScalarView, MetricEntry, MetricEntryView, MetricKind, MetricValue};
use crate::time::Timestamp;
use crate::value_laws::PlcInt;
use crate::wire::{le32, u32_at};

verus! {

broadcast use crate::wire::group_wire;

/// The kind of metric that single values of a definition make: a sum for a sum, else a gauge.
pub open spec fn single_kind(kind: MetricKindConfig) -> MetricKind {
    match kind {
        MetricKindConfig::Sum => MetricKind::Sum,
        MetricKindConfig::Gauge => MetricKind::Gauge,
        MetricKindConfig::Histogram => MetricKind::Gauge,
    }
}

/// `m` is the metric that `d` defines, with the value `v` read at `now`.
pub open spec fn measures(m: MetricEntryView, d: CustomMetricDefView, v: PlcValue, now: Timestamp) -> bool {
    &&& m.name == d.metric_name
    &&& m.description == d.description
    &&& m.unit == d.unit
    &&& m.kind == single_kind(d.kind)
    &&& m.is_monotonic == (d.kind is Sum && d.is_monotonic)
    &&& m.timestamp == now
    &&& match v {
        PlcValue::Bool(b) => m.value == MetricValue::Unsigned(if b { 1 } else { 0 }),
        PlcValue::I64(n) => m.value == MetricValue::Signed(n),
        PlcValue::U64(n) => m.value == MetricValue::Unsigned(n),
        PlcValue::F64(x) => m.value == MetricValue::Lreal(x),
    }
    &&& d.ams_net_id matches Some(id) ==> m.ams_net_id == id
    &&& d.ams_net_id is None ==> m.ams_net_id.len() == 0
    &&& d.ams_port matches Some(port) ==> m.ams_source_port == port
    &&& d.ams_port is None ==> m.ams_source_port == 0
    &&& m.attributes.dom() == set!["plc.symbol"@, "plc.datatype"@]
    &&& m.attributes["plc.symbol"@] == JsonScalarView::Text(d.symbol)
    &&& m.attributes["plc.datatype"@] == JsonScalarView::Text(
        match v {
            PlcValue::Bool(_) => "bool"@,
            PlcValue::I64(_) => "i64"@,
            PlcValue::U64(_) => "u64"@,
            PlcValue::F64(_) => "f64"@,
        },
    )
    &&& m.hostname.len() == 0
    &&& m.task_index == 0
    &&& m.task_name.len() == 0
    &&& m.task_cycle_counter == 0
    &&& m.app_name.len() == 0
    &&& m.project_name.len() == 0
    &&& m.histogram_bounds.len() == 0
    &&& m.histogram_counts.len() == 0
    &&& m.histogram_count == 0
    &&& m.histogram_sum == MetricValue::Unsigned(0)
}

/// A metric has the name, the description, the unit and the address of its definition, the
/// definition's symbol as an attribute, and the value that was read.
pub proof fn law_metrics_are_as_defined(d: CustomMetricDefView, v: PlcValue, now: Timestamp)
    ensures
        measures(entry_of(d, v, now), d, v, now),
        entry_of(d, v, now).source == "client-poll"@,
{
    reveal_strlit("plc.symbol");
    reveal_strlit("plc.datatype");
    assert("plc.symbol"@.len() != "plc.datatype"@.len());
    assert(entry_of(d, v, now).attributes.dom() =~= set!["plc.symbol"@, "plc.datatype"@]);
}

/// What is built of a definition and a value has the texts of that very definition.
pub proof fn law_built_metrics_are_as_defined(def: &CustomMetricDef, value: PlcValue, now: Timestamp, r: MetricEntry)
    requires
        call_ensures(build_metric_entry_at, (def, value, now), r),
    ensures
        r.name@ == def.metric_name@,
        r.description@ == def.description@,
        r.unit@ == def.unit@,
        r.source@ == "client-poll"@,
        r.kind == single_kind(def.kind),
        r.is_monotonic == (def.kind is Sum && def.is_monotonic),
        r.timestamp == now,
        r.value == value.number(),
        def.ams_net_id matches Some(id) ==> r.ams_net_id@ == id@,
        def.ams_net_id is None ==> r.ams_net_id@.len() == 0,
        def.ams_port matches Some(port) ==> r.ams_source_port == port,
        def.ams_port is None ==> r.ams_source_port == 0,
        r.attributes@.dom() == set!["plc.symbol"@, "plc.datatype"@],
        r.attributes@["plc.symbol"@] == JsonScalarView::Text(def.symbol@),
{
    law_metrics_are_as_defined(def@, value, now);
}

/// A successful read sends the metric of the value that was read; a failed one waits as long as
/// the waiting has grown to.
pub proof fn law_reads_are_sent(
    d: CustomMetricDefView,
    wait_ms: u64,
    v: PlcValue,
    e: ClientErrorView,
    now: Timestamp,
)
    ensures
        after_read(d, wait_ms, Ok(v), now) matches (_, PollStepView::Emit(m)) && measures(m, d, v, now),
        after_read(d, wait_ms, Err(e), now).1 == PollStepView::Wait(wait_ms),
        after_read(d, wait_ms, Err(e), now).0 == (if 2 * wait_ms > 30_000 { 30_000 } else { 2 * wait_ms }),
        after_read(d, wait_ms, Ok(v), now).0 == 250,
{
    law_metrics_are_as_defined(d, v, now);
}

/// A metric is read at the interval of its definition, but not more often than every ten
/// milliseconds; each second where none is given.
pub proof fn law_intervals<R: SymbolReader>(d: CustomMetricDefView)
    ensures
        d.poll is None ==> Poller::<R>::interval(d) == 1000,
        d.poll matches Some(c) ==> Poller::<R>::interval(d) >= 10 && Poller::<R>::interval(d) >= c.interval_ms && (
        Poller::<R>::interval(d) == 10 || Poller::<R>::interval(d) == c.interval_ms),
{
}

/// A poll has the texts, the kind and the symbol of its definition.
pub proof fn law_polls_are_as_defined(d: CustomMetricDefView)
    ensures
        ({
            let p = PollMetricConfigView::of(d);
            &&& p.symbol == d.symbol
            &&& p.metric_name == d.metric_name
            &&& p.description == d.description
            &&& p.unit == d.unit
            &&& p.is_monotonic == d.is_monotonic
            &&& (p.kind is Gauge <==> d.kind is Gauge)
            &&& (p.kind is Sum <==> d.kind is Sum)
            &&& (p.kind is Histogram <==> d.kind is Histogram)
        }),
{
}

// Notifications.

/// A sample of an integer symbol that is subscribed to gives the metric of the definition that
/// subscribed, with the integer as its value.
pub proof fn law_samples_are_measured(v: NotifierView, h: u32, n: PlcInt, after: Seq<u8>, now: Timestamp)
    requires
        v.subs.dom().contains(h),
        names_integer(v.subs[h].meta.data_type_name, n),
    ensures
        sample_entry(v, h, n.bytes() + after, now) matches Some(m) && {
            &&& m.source == "client-notify"@
            &&& match m.value {
                MetricValue::Unsigned(x) => n.unsigned() && x == n.number(),
                MetricValue::Signed(x) => !n.unsigned() && x == n.number(),
                _ => false,
            }
            &&& exists|got: PlcValue| #[trigger] measures(m, v.subs[h].def, got, now)
        },
{
    crate::client::scalar_laws::law_integers_decode(v.subs[h].meta.data_type_name, n, after);
    let got = crate::client::scalar(v.subs[h].meta.data_type_name, n.bytes() + after)->Some_0;
    let m = sample_entry(v, h, n.bytes() + after, now)->Some_0;
    law_metrics_are_as_defined(v.subs[h].def, got, now);
    assert(measures(m, v.subs[h].def, got, now));
}

/// What a sample gives is the metric of the definition that subscribed, and of no other; a sample
/// of a subscription that is not known, or that does not decode, gives nothing.
pub proof fn law_samples_belong_to_their_subscription(v: NotifierView, h: u32, data: Seq<u8>, now: Timestamp)
    ensures
        match sample_entry(v, h, data, now) {
            Some(m) => v.subs.dom().contains(h) && m.source == "client-notify"@ && (crate::client::scalar(
                v.subs[h].meta.data_type_name,
                data,
            ) matches Some(got) && measures(m, v.subs[h].def, got, now)),
            None => !v.subs.dom().contains(h) || crate::client::scalar(v.subs[h].meta.data_type_name, data) is None,
        },
{
    if v.subs.dom().contains(h) {
        if let Some(got) = crate::client::scalar(v.subs[h].meta.data_type_name, data) {
            law_metrics_are_as_defined(v.subs[h].def, got, now);
        }
    }
}

/// The metrics of a notification are those of its first samples and then those of the rest, and a
/// single sample gives its own metric: nothing is lost, added or moved.
pub proof fn law_samples_are_taken_in_order(
    v: NotifierView,
    first: Seq<(u32, Seq<u8>)>,
    rest: Seq<(u32, Seq<u8>)>,
    h: u32,
    data: Seq<u8>,
    now: Timestamp,
)
    ensures
        sample_entries(v, first + rest, now) == sample_entries(v, first, now) + sample_entries(v, rest, now),
        sample_entries(v, seq![(h, data)], now) == (match sample_entry(v, h, data, now) {
            Some(m) => seq![m],
            None => Seq::empty(),
        }),
    decreases rest.len(),
{
    let one = seq![(h, data)];
    assert(one.drop_last() =~= Seq::empty());
    assert(one.last() == (h, data));
    assert(sample_entries(v, one.drop_last(), now) =~= Seq::empty());
    assert(sample_entries(v, one, now) =~= match sample_entry(v, h, data, now) {
        Some(m) => seq![m],
        None => Seq::empty(),
    });
    if rest.len() == 0 {
        assert(first + rest =~= first);
        assert(sample_entries(v, first, now) + sample_entries(v, rest, now) =~= sample_entries(v, first, now));
    } else {
        law_samples_are_taken_in_order(v, first, rest.drop_last(), h, data, now);
        assert((first + rest).drop_last() =~= first + rest.drop_last());
        assert((first + rest).last() == rest.last());
        assert(sample_entries(v, first + rest, now) =~= sample_entries(v, first, now) + sample_entries(v, rest, now));
    }
}

/// A length of time in milliseconds has as many nanoseconds as it should, in whole seconds and a
/// rest.
pub proof fn law_milliseconds(ms: u32)
    ensures
        millis(ms).total_nanos() == ms * 1_000_000,
        millis(ms).nanos < 1_000_000_000,
{
}

/// A definition subscribes to all bytes of its symbol, in its mode, with its delay and its
/// period, which is at least ten milliseconds; one without such a configuration is refused.
pub proof fn law_subscriptions_are_as_defined(d: CustomMetricDefView, size: u32)
    ensures
        match d.notification {
            Some(c) => attrs_of(d, size) matches Ok(a) && {
                &&& a.length == size
                &&& a.trans_mode == c.transmission_mode
                &&& a.max_delay.total_nanos() == c.max_delay_ms * 1_000_000
                &&& a.cycle_time.total_nanos() == (if c.min_period_ms < 10 { 10 } else { c.min_period_ms as int })
                    * 1_000_000
                &&& a.max_delay.nanos < 1_000_000_000
                &&& a.cycle_time.nanos < 1_000_000_000
            },
            None => attrs_of(d, size) == Err::<NotifAttrs, ClientErrorView>(
                ClientErrorView::Decode(
                    "metric '"@ + d.metric_name + "' has source=notification but no notification config"@,
                ),
            ),
        },
{
}

/// A request to subscribe says where the symbol is, how many bytes it has, the number of the mode
/// (4 on change, 3 cyclic), the delay and the period in units of 100 ns, and sixteen zeros.
pub proof fn law_subscribe_requests_read_back(attrs: NotifAttrs, meta: SymbolMetaView, delay: u32, cycle: u32)
    requires
        attrs.max_delay.total_nanos() == delay * 100,
        attrs.cycle_time.total_nanos() == cycle * 100,
    ensures
        ({
            let s = subscribe_request(attrs, meta);
            &&& s.len() == 40
            &&& AdsReadRequest::read(s) == Ok::<AdsReadRequest, AdsErrorView>(
                AdsReadRequest {
                    index_group: meta.index_group,
                    index_offset: meta.index_offset,
                    read_length: meta.size,
                },
            )
            &&& u32_at(s, 12) == (match attrs.trans_mode {
                NotificationTransmissionMode::OnChange => 4u32,
                NotificationTransmissionMode::Cyclic => 3u32,
            })
            &&& u32_at(s, 16) == delay
            &&& u32_at(s, 20) == cycle
            &&& forall|i: int| 24 <= i < 40 ==> #[trigger] s[i] == 0
        }),
{
    let s = subscribe_request(attrs, meta);
    let q = AdsReadRequest { index_group: meta.index_group, index_offset: meta.index_offset, read_length: meta.size };
    law_read_request_reads_back(q, attrs.tail());
    assert(delay * 100 / 100 == delay);
    assert(cycle * 100 / 100 == cycle);
    let mode = crate::client::notify::mode_number(attrs.trans_mode);
    assert(meta.request().len() == 12);
    assert(s.subrange(12, 16) =~= le32(mode));
    assert(s.subrange(16, 20) =~= le32(delay));
    assert(s.subrange(20, 24) =~= le32(cycle));
    lemma_dword_read(s, 12, mode);
    lemma_dword_read(s, 16, delay);
    lemma_dword_read(s, 20, cycle);
}

/// The reply to a subscription without an error gives the handle behind the result; the reply to
/// its end without an error says just that. A result other than zero is an error, and so is a
/// reply that is too short.
pub proof fn law_subscription_replies_read_back(result: u32, h: u32, after: Seq<u8>, short: Seq<u8>)
    ensures
        result == 0 ==> subscribe_reply(le32(result) + le32(h) + after) == Ok::<u32, ClientErrorView>(h),
        result == 0 ==> unsubscribe_reply(le32(result) + after) is Ok,
        result != 0 ==> subscribe_reply(le32(result) + le32(h) + after) matches Err(ClientErrorView::Ads(_)),
        result != 0 ==> unsubscribe_reply(le32(result) + after) matches Err(ClientErrorView::Ads(_)),
        short.len() < 8 ==> subscribe_reply(short) matches Err(ClientErrorView::Decode(_)),
        short.len() < 4 ==> unsubscribe_reply(short) matches Err(ClientErrorView::Decode(_)),
{
    let s = le32(result) + le32(h) + after;
    assert(s.subrange(0, 4) =~= le32(result));
    assert(s.subrange(4, 8) =~= le32(h));
    lemma_dword_read(s, 0, result);
    lemma_dword_read(s, 4, h);
    let t = le32(result) + after;
    assert(t.subrange(0, 4) =~= le32(result));
    lemma_dword_read(t, 0, result);
}

/// Of the definitions of a symbol the last is wanted, with the symbol it was found as; where one
/// definition has no configuration, nothing is.
pub proof fn law_last_definitions_are_wanted(desired: Seq<(CustomMetricDefView, SymbolMetaView)>, i: int)
    requires
        0 <= i < desired.len(),
    ensures
        wanted(desired) is Ok <==> forall|j: int| 0 <= j < desired.len() ==> (#[trigger] desired[j]).0.notification is Some,
        wanted(desired) matches Ok(m) ==> {
            let s = desired[i].0.symbol;
            &&& m.dom().contains(s)
            &&& (forall|j: int| i < j < desired.len() ==> (#[trigger] desired[j]).0.symbol != s) ==> {
                &&& m[s].def == desired[i].0
                &&& m[s].meta == desired[i].1
                &&& attrs_of(desired[i].0, desired[i].1.size) == Ok::<NotifAttrs, ClientErrorView>(m[s].attrs)
            }
        },
    decreases desired.len(),
{
    let front = desired.drop_last();
    assert(forall|j: int| 0 <= j < front.len() ==> #[trigger] front[j] == desired[j]);
    assert(desired.last() == desired[desired.len() - 1]);
    if front.len() > 0 {
        law_last_definitions_are_wanted(front, if i < front.len() { i } else { 0 });
    }
    if wanted(desired) is Ok {
        assert forall|j: int| 0 <= j < desired.len() implies (#[trigger] desired[j]).0.notification is Some by {
            if j < front.len() {
                assert(front[j] == desired[j]);
            }
        }
        let s = desired[i].0.symbol;
        if i < front.len() && (forall|j: int| i < j < desired.len() ==> (#[trigger] desired[j]).0.symbol != s) {
            assert forall|j: int| i < j < front.len() implies (#[trigger] front[j]).0.symbol != s by {
                assert(front[j] == desired[j]);
            }
            assert(desired[desired.len() - 1].0.symbol != s);
        }
    } else if forall|j: int| 0 <= j < desired.len() ==> (#[trigger] desired[j]).0.notification is Some {
        assert forall|j: int| 0 <= j < front.len() implies (#[trigger] front[j]).0.notification is Some by {
            assert(front[j] == desired[j]);
        }
        assert(desired[desired.len() - 1].0.notification is Some);
    }
}

/// A sample that says that it has more bytes than follow is not given, and neither is one whose
/// fixed part is cut short: the samples before it are.
pub proof fn law_cut_samples_are_not_given(
    before: Seq<u8>,
    h: u32,
    size: u32,
    data: Seq<u8>,
    n: nat,
    found: Seq<(u32, Seq<u8>)>,
)
    ensures
        data.len() < size ==> samples_after(before + le32(h) + le32(size) + data, before.len() as int, n, found).0 == found,
        data.len() < 8 ==> samples_after(before + data, before.len() as int, n, found) == (found, before.len() as int),
        data.len() < 8 ==> notification_samples(data).len() == 0,
{
    let s = before + le32(h) + le32(size) + data;
    let p = before.len() as int;
    assert(s.subrange(p + 4, p + 8) =~= le32(size));
    lemma_dword_read(s, p + 4, size);
}

/// Only notifications bring samples: frames with the command 8 that hold at least one.
pub proof fn law_only_notifications_bring_samples(
    sink: &NotificationSink,
    h: &AmsHeader,
    payload: &[u8],
    r: Option<DispatchBatch>,
)
    requires
        call_ensures(NotificationSink::extract, (sink, h, payload), r),
    ensures
        r is Some <==> h.command_id == 8 && notification_samples(payload@).len() > 0,
        r matches Some(b) ==> b.samples@.len() == notification_samples(payload@).len() && forall|i: int|
            0 <= i < b.samples@.len() ==> (#[trigger] b.samples@[i]).0 == notification_samples(payload@)[i].0
                && b.samples@[i].1@ == notification_samples(payload@)[i].1,
{
    if let Some(b) = r {
        assert forall|i: int| 0 <= i < b.samples@.len() implies (#[trigger] b.samples@[i]).0 == notification_samples(
            payload@,
        )[i].0 && b.samples@[i].1@ == notification_samples(payload@)[i].1 by {
            assert(b@[i] == (b.samples@[i].0, b.samples@[i].1@));
        }
    }
}

/// A new subscription is kept under its handle and its symbol, and no other is touched. The end of
/// one forgets it and its symbol, and no other.
pub proof fn law_subscriptions_are_kept_apart(
    v: NotifierView,
    h: u32,
    sub: SubscriptionView,
    other: u32,
    name: Seq<char>,
)
    ensures
        v.with(h, sub).subs.dom().contains(h),
        v.with(h, sub).subs[h] == sub,
        v.with(h, sub).by_symbol.dom().contains(sub.def.symbol),
        v.with(h, sub).by_symbol[sub.def.symbol] == h,
        other != h ==> v.with(h, sub).subs.dom().contains(other) == v.subs.dom().contains(other),
        other != h && v.subs.dom().contains(other) ==> v.with(h, sub).subs[other] == v.subs[other],
        name != sub.def.symbol ==> v.with(h, sub).by_symbol.dom().contains(name) == v.by_symbol.dom().contains(name),
        name != sub.def.symbol && v.by_symbol.dom().contains(name) ==> v.with(h, sub).by_symbol[name]
            == v.by_symbol[name],
        !v.without(h).subs.dom().contains(h),
        other != h ==> v.without(h).subs.dom().contains(other) == v.subs.dom().contains(other),
        other != h && v.subs.dom().contains(other) ==> v.without(h).subs[other] == v.subs[other],
        v.subs.dom().contains(h) ==> !v.without(h).by_symbol.dom().contains(v.subs[h].def.symbol),
        v.subs.dom().contains(h) && name != v.subs[h].def.symbol && v.by_symbol.dom().contains(name) ==> v.without(
            h,
        ).by_symbol.dom().contains(name) && v.without(h).by_symbol[name] == v.by_symbol[name],
        !v.subs.dom().contains(h) ==> v.without(h).by_symbol == v.by_symbol,
{
}

/// Only what some definition asks for is wanted.
pub proof fn law_nothing_else_is_wanted(desired: Seq<(CustomMetricDefView, SymbolMetaView)>, name: Seq<char>)
    ensures
        wanted(desired) matches Ok(m) ==> (m.dom().contains(name) ==> exists|i: int|
            0 <= i < desired.len() && (#[trigger] desired[i]).0.symbol == name),
    decreases desired.len(),
{
    if desired.len() > 0 {
        let front = desired.drop_last();
        law_nothing_else_is_wanted(front, name);
        assert(desired[desired.len() - 1] == desired.last());
        if wanted(front) is Ok && wanted(front)->Ok_0.dom().contains(name) {
            let i = choose|i: int| 0 <= i < front.len() && (#[trigger] front[i]).0.symbol == name;
            assert(desired[i] == front[i]);
        }
    }
}

/// A report names each symbol once: under those added if it is wanted and was not subscribed to,
/// under those removed if it was subscribed to and is not wanted, and under those changed if it was
/// subscribed to otherwise than wanted.
pub proof fn law_reports_say_what_was_done(
    r: ReconcileReport,
    v: NotifierView,
    m: Map<Seq<char>, SubscriptionView>,
    s: Seq<char>,
)
    requires
        reports(r, v, m),
        v.linked(),
    ensures
        names(r.added@).contains(s) <==> m.dom().contains(s) && !v.by_symbol.dom().contains(s),
        names(r.removed@).contains(s) <==> v.by_symbol.dom().contains(s) && !m.dom().contains(s),
        names(r.changed@).contains(s) <==> v.by_symbol.dom().contains(s) && m.dom().contains(s) && v.subs[v.by_symbol[s]].attrs
            != m[s].attrs,
        names(r.added@).no_duplicates(),
        names(r.removed@).no_duplicates(),
        names(r.changed@).no_duplicates(),
        forall|i: int| 0 <= i < r.added@.len() ==> #[trigger] names(r.added@)[i] == r.added@[i]@,
        names(r.added@).len() == r.added@.len(),
{
    assert(Set::new(|s: Seq<char>| v.missing(m, s)).contains(s) <==> v.missing(m, s));
    assert(Set::new(|s: Seq<char>| v.outdated(m, s)).contains(s) <==> v.outdated(m, s));
    assert(Set::new(|s: Seq<char>| v.different(m, s)).contains(s) <==> v.different(m, s));
}

/// A notification that was received gives the metrics of its samples; an error gives none; and only
/// the end of the notifications ends the receiving.
pub proof fn law_receiving_goes_on_until_the_end<B: NotificationBackend>(
    n: &Notifier<B>,
    received: Result<Option<DispatchBatch>, ClientError>,
    now: Timestamp,
    r: Option<Vec<MetricEntry>>,
    i: int,
)
    requires
        call_ensures(Notifier::<B>::on_received, (n, received, now), r),
    ensures
        r is None <==> received matches Ok(None),
        received is Err ==> (r matches Some(v) && v@.len() == 0),
        received matches Ok(Some(batch)) ==> (r matches Some(v) && v@.len() == sample_entries(n@, batch@, now).len() && (
        0 <= i < v@.len() ==> v@[i]@ == sample_entries(n@, batch@, now)[i])),
{
    if let Some(v) = r {
        assert(metric_views(v@).len() == v@.len());
        if 0 <= i < v@.len() {
            assert(metric_views(v@)[i] == v@[i]@);
        }
    }
}

} // verus!
