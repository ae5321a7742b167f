//! Messages are read back from how they stand in a buffer.
use vstd::prelude::*;

use crate::buffer_laws::{complete, complete_from, message_end};
use crate::encoding::{
    fits, lemma_byte_read, lemma_dword_read, lemma_int32_read, lemma_short_read, lemma_stands_between,
    lemma_stands_split, lemma_tagged_read, lemma_text_read, lemma_time_read, lemma_word_read, sendable, short_bytes,
    stands, tagged_bytes, text_bytes, time_bytes, timely, unsigned32,
};
use crate::error::AdsErrorView;
use crate::models::{JsonScalarView, LogLevel, SpanKind, SpanStatusCode};
use crate::parser::{
    app_names, attribute, attributes, messages, parse_outcome, registration, scope_key, span_counts, span_entry,
    span_body, span_event, span_events, span_ids, span_kinds, task_counts, two_times, v1_argument, v1_entry, v1_head, v1_items,
    v1_names, v1_property, v1_task, v2_arguments, v2_body, v2_entry, v2_head, v2_properties, v2_scopes, zeros, Items,
    ParseResultView, MAX_ARGUMENTS, MAX_CONTEXT_VARS, MAX_MESSAGE_SIZE, MAX_SPAN_ATTRIBUTES, MAX_SPAN_EVENTS,
};
use crate::protocol::{
    AdsLogEntryView, AdsProtocolVersion, AdsSpanEntryView, AdsSpanEventView, RegistrationMessageView,
};
use crate::time::Timestamp;
use crate::window_laws::{items_closed, v1_closed};
use crate::wire::{le16, le32};

verus! {

broadcast use crate::wire::group_wire;

pub open spec fn level_byte(level: LogLevel) -> u8 {
    match level {
        LogLevel::Trace => 0,
        LogLevel::Debug => 1,
        LogLevel::Info => 2,
        LogLevel::Warn => 3,
        LogLevel::Error => 4,
        LogLevel::Fatal => 5,
    }
}

// Parts that several messages have.

pub open spec fn times_bytes(a: Timestamp, b: Timestamp) -> Seq<u8> {
    time_bytes(a) + time_bytes(b)
}

proof fn lemma_times_read(s: Seq<u8>, p: int, a: Timestamp, b: Timestamp, now: Timestamp)
    requires
        stands(s, p, times_bytes(a, b)),
        timely(a),
        timely(b),
    ensures
        two_times(s, p, now) == (Ok::<(Timestamp, Timestamp), AdsErrorView>((a, b)), p + times_bytes(a, b).len() as int),
{
    lemma_stands_split(s, p, time_bytes(a), time_bytes(b));
    lemma_time_read(s, p, a, now);
    lemma_time_read(s, p + 8, b, now);
}

pub open spec fn app_bytes(app: Seq<char>, project: Seq<char>, changes: u32) -> Seq<u8> {
    text_bytes(app) + (text_bytes(project) + le32(changes))
}

proof fn lemma_app_read(s: Seq<u8>, p: int, app: Seq<char>, project: Seq<char>, changes: u32)
    requires
        stands(s, p, app_bytes(app, project, changes)),
        fits(app),
        fits(project),
    ensures
        app_names(s, p) == (
            Ok::<(Seq<char>, Seq<char>, u32), AdsErrorView>((app, project, changes)),
            p + app_bytes(app, project, changes).len() as int,
        ),
{
    let q = p + text_bytes(app).len() as int;
    lemma_stands_split(s, p, text_bytes(app), text_bytes(project) + le32(changes));
    lemma_stands_split(s, q, text_bytes(project), le32(changes));
    lemma_text_read(s, p, app);
    lemma_text_read(s, q, project);
    lemma_dword_read(s, q + text_bytes(project).len() as int, changes);
}

pub open spec fn counts_bytes(task: u8, cycle: u32, a: u8, b: u8) -> Seq<u8> {
    seq![task] + (le32(cycle) + (seq![a] + seq![b]))
}

proof fn lemma_counts_read(s: Seq<u8>, p: int, task: u8, cycle: u32, a: u8, b: u8)
    requires
        stands(s, p, counts_bytes(task, cycle, a, b)),
    ensures
        task_counts(s, p) == (Ok::<(u8, u32, u8, u8), AdsErrorView>((task, cycle, a, b)), p + 7),
{
    lemma_stands_split(s, p, seq![task], le32(cycle) + (seq![a] + seq![b]));
    lemma_stands_split(s, p + 1, le32(cycle), seq![a] + seq![b]);
    lemma_stands_split(s, p + 5, seq![a], seq![b]);
    lemma_byte_read(s, p, task);
    lemma_dword_read(s, p + 1, cycle);
    lemma_byte_read(s, p + 5, a);
    lemma_byte_read(s, p + 6, b);
}

/// A name and a value.
pub struct Named {
    pub name: Seq<char>,
    pub value: JsonScalarView,
}

impl Named {
    pub open spec fn writable(self) -> bool {
        fits(self.name) && sendable(self.value)
    }

    pub open spec fn bytes(self) -> Seq<u8> {
        text_bytes(self.name) + short_bytes(self.value)
    }
}

proof fn lemma_attribute_read(s: Seq<u8>, p: int, a: Named)
    requires
        stands(s, p, a.bytes()),
        a.writable(),
    ensures
        attribute(s, p) == (
            Ok::<(Seq<char>, JsonScalarView), AdsErrorView>((a.name, a.value)),
            p + a.bytes().len() as int,
        ),
{
    lemma_stands_split(s, p, text_bytes(a.name), short_bytes(a.value));
    lemma_text_read(s, p, a.name);
    lemma_short_read(s, p + text_bytes(a.name).len() as int, a.value);
}

pub open spec fn all_writable(all: Seq<Named>) -> bool {
    forall|i: int| 0 <= i < all.len() ==> (#[trigger] all[i]).writable()
}

/// Attributes, one behind the other.
pub open spec fn named_bytes(all: Seq<Named>) -> Seq<u8>
    decreases all.len(),
{
    if all.len() == 0 {
        Seq::empty()
    } else {
        all[0].bytes() + named_bytes(all.skip(1))
    }
}

/// The attributes by name, added to those already there: the last of a name counts.
pub open spec fn by_name(all: Seq<Named>, found: Map<Seq<char>, JsonScalarView>) -> Map<Seq<char>, JsonScalarView>
    decreases all.len(),
{
    if all.len() == 0 {
        found
    } else {
        by_name(all.skip(1), found.insert(all[0].name, all[0].value))
    }
}

proof fn lemma_attributes_read(s: Seq<u8>, p: int, all: Seq<Named>, found: Map<Seq<char>, JsonScalarView>)
    requires
        stands(s, p, named_bytes(all)),
        all_writable(all),
    ensures
        attributes(s, p, all.len(), found) == (
            Ok::<Map<Seq<char>, JsonScalarView>, AdsErrorView>(by_name(all, found)),
            p + named_bytes(all).len() as int,
        ),
    decreases all.len(),
{
    if all.len() > 0 {
        let rest = all.skip(1);
        lemma_rest_writable(all);
        lemma_stands_split(s, p, all[0].bytes(), named_bytes(rest));
        lemma_attribute_read(s, p, all[0]);
        lemma_attributes_read(s, p + all[0].bytes().len() as int, rest, found.insert(all[0].name, all[0].value));
    }
}

// The first format.

/// An argument or a context property of the first format.
pub enum V1Item {
    Argument { index: u8, value: JsonScalarView },
    Property { scope: u8, name: Seq<char>, value: JsonScalarView },
}

impl V1Item {
    pub open spec fn writable(self) -> bool {
        match self {
            V1Item::Argument { index: _, value } => sendable(value),
            V1Item::Property { scope: _, name, value } => fits(name) && sendable(value),
        }
    }

    pub open spec fn bytes(self) -> Seq<u8> {
        match self {
            V1Item::Argument { index, value } => seq![1u8] + (seq![index] + tagged_bytes(value)),
            V1Item::Property { scope, name, value } => seq![2u8] + (seq![scope] + (text_bytes(name) + tagged_bytes(
                value,
            ))),
        }
    }

    /// The items with this one added.
    pub open spec fn added(self, items: Items) -> Items {
        match self {
            V1Item::Argument { index, value } => (items.0.insert(index as usize, value), items.1),
            V1Item::Property { scope, name, value } => (items.0, items.1.insert(scope_key(scope, name), value)),
        }
    }

    /// There is room for one more of its kind.
    pub open spec fn has_room(self, items: Items) -> bool {
        match self {
            V1Item::Argument { .. } => items.0.dom().len() < MAX_ARGUMENTS,
            V1Item::Property { .. } => items.1.dom().len() < MAX_CONTEXT_VARS,
        }
    }
}

/// Items, one behind the other, and the end marker.
pub open spec fn items_bytes(all: Seq<V1Item>) -> Seq<u8>
    decreases all.len(),
{
    if all.len() == 0 {
        seq![0u8]
    } else {
        all[0].bytes() + items_bytes(all.skip(1))
    }
}

/// All items, added to those already there.
pub open spec fn all_added(all: Seq<V1Item>, items: Items) -> Items
    decreases all.len(),
{
    if all.len() == 0 {
        items
    } else {
        all_added(all.skip(1), all[0].added(items))
    }
}

/// Each item can be written and finds room.
pub open spec fn items_writable(all: Seq<V1Item>, items: Items) -> bool
    decreases all.len(),
{
    all.len() == 0 || (all[0].writable() && all[0].has_room(items) && items_writable(
        all.skip(1),
        all[0].added(items),
    ))
}

proof fn lemma_item_read(s: Seq<u8>, p: int, item: V1Item)
    requires
        stands(s, p, item.bytes()),
        item.writable(),
    ensures
        match item {
            V1Item::Argument { index, value } => s[p] == 1 && v1_argument(s, p + 1) == (
                Ok::<(usize, JsonScalarView), AdsErrorView>((index as usize, value)),
                p + item.bytes().len() as int,
            ),
            V1Item::Property { scope, name, value } => s[p] == 2 && v1_property(s, p + 1) == (
                Ok::<(Seq<char>, JsonScalarView), AdsErrorView>((scope_key(scope, name), value)),
                p + item.bytes().len() as int,
            ),
        },
{
    match item {
        V1Item::Argument { index, value } => {
            lemma_stands_split(s, p, seq![1u8], seq![index] + tagged_bytes(value));
            lemma_stands_split(s, p + 1, seq![index], tagged_bytes(value));
            lemma_byte_read(s, p, 1u8);
            lemma_byte_read(s, p + 1, index);
            lemma_tagged_read(s, p + 2, value);
        },
        V1Item::Property { scope, name, value } => {
            lemma_stands_split(s, p, seq![2u8], seq![scope] + (text_bytes(name) + tagged_bytes(value)));
            lemma_stands_split(s, p + 1, seq![scope], text_bytes(name) + tagged_bytes(value));
            lemma_stands_split(s, p + 2, text_bytes(name), tagged_bytes(value));
            lemma_byte_read(s, p, 2u8);
            lemma_byte_read(s, p + 1, scope);
            lemma_text_read(s, p + 2, name);
            lemma_tagged_read(s, p + 2 + text_bytes(name).len() as int, value);
        },
    }
}

proof fn lemma_items_read(s: Seq<u8>, p: int, all: Seq<V1Item>, items: Items)
    requires
        stands(s, p, items_bytes(all)),
        items_writable(all, items),
    ensures
        v1_items(s, p, items) == (Ok::<Items, AdsErrorView>(all_added(all, items)), p + items_bytes(all).len() as int),
        items_closed(s, p, items),
    decreases all.len(),
{
    if all.len() == 0 {
        lemma_byte_read(s, p, 0u8);
    } else {
        let item = all[0];
        lemma_stands_split(s, p, item.bytes(), items_bytes(all.skip(1)));
        lemma_item_read(s, p, item);
        lemma_items_read(s, p + item.bytes().len() as int, all.skip(1), item.added(items));
    }
}

pub open spec fn v1_names_bytes(e: AdsLogEntryView) -> Seq<u8> {
    seq![1u8] + (text_bytes(e.message) + (text_bytes(e.logger) + le16(level_byte(e.level) as u16)))
}

pub open spec fn v1_task_bytes(e: AdsLogEntryView) -> Seq<u8> {
    le32(unsigned32(e.task_index)) + (text_bytes(e.task_name) + le32(e.task_cycle_counter))
}

/// A log entry of the first format with its items.
pub open spec fn v1_bytes(e: AdsLogEntryView, all: Seq<V1Item>) -> Seq<u8> {
    v1_names_bytes(e) + (times_bytes(e.plc_timestamp, e.clock_timestamp) + (v1_task_bytes(e) + (app_bytes(
        e.app_name,
        e.project_name,
        e.online_change_count,
    ) + items_bytes(all))))
}

/// The lengths of all names fit their bytes.
pub open spec fn v1_names_fit(e: AdsLogEntryView) -> bool {
    &&& fits(e.message)
    &&& fits(e.logger)
    &&& fits(e.task_name)
    &&& fits(e.app_name)
    &&& fits(e.project_name)
}

pub open spec fn v1_writable(e: AdsLogEntryView, all: Seq<V1Item>) -> bool {
    &&& v1_names_fit(e)
    &&& timely(e.plc_timestamp)
    &&& timely(e.clock_timestamp)
    &&& items_writable(all, (Map::empty(), Map::empty()))
}

/// The entry that is read: the items by index and name, and no trace.
pub open spec fn v1_read(e: AdsLogEntryView, all: Seq<V1Item>) -> AdsLogEntryView {
    let (arguments, context) = all_added(all, (Map::empty(), Map::empty()));
    AdsLogEntryView {
        version: AdsProtocolVersion::V1,
        trace_id: zeros(16),
        span_id: zeros(8),
        arguments,
        context,
        ..e
    }
}

proof fn lemma_v1_names_read(s: Seq<u8>, p: int, e: AdsLogEntryView)
    requires
        stands(s, p, v1_names_bytes(e)),
        fits(e.message),
        fits(e.logger),
    ensures
        s[p] == 1,
        v1_names(s, p) == (
            Ok::<(AdsProtocolVersion, Seq<char>, Seq<char>, LogLevel), AdsErrorView>(
                (AdsProtocolVersion::V1, e.message, e.logger, e.level),
            ),
            p + v1_names_bytes(e).len() as int,
        ),
{
    let level = le16(level_byte(e.level) as u16);
    let q = p + 1 + text_bytes(e.message).len() as int;
    let r = q + text_bytes(e.logger).len() as int;
    lemma_stands_split(s, p, seq![1u8], text_bytes(e.message) + (text_bytes(e.logger) + level));
    lemma_stands_split(s, p + 1, text_bytes(e.message), text_bytes(e.logger) + level);
    lemma_stands_split(s, q, text_bytes(e.logger), level);
    lemma_byte_read(s, p, 1u8);
    lemma_text_read(s, p + 1, e.message);
    lemma_text_read(s, q, e.logger);
    lemma_word_read(s, r, level_byte(e.level) as u16);
}

proof fn lemma_v1_task_read(s: Seq<u8>, p: int, e: AdsLogEntryView)
    requires
        stands(s, p, v1_task_bytes(e)),
        fits(e.task_name),
    ensures
        v1_task(s, p) == (
            Ok::<(i32, Seq<char>, u32), AdsErrorView>((e.task_index, e.task_name, e.task_cycle_counter)),
            p + v1_task_bytes(e).len() as int,
        ),
{
    lemma_stands_split(s, p, le32(unsigned32(e.task_index)), text_bytes(e.task_name) + le32(e.task_cycle_counter));
    lemma_stands_split(s, p + 4, text_bytes(e.task_name), le32(e.task_cycle_counter));
    lemma_int32_read(s, p, e.task_index);
    lemma_text_read(s, p + 4, e.task_name);
    lemma_dword_read(s, p + 4 + text_bytes(e.task_name).len() as int, e.task_cycle_counter);
}

/// A log entry of the first format, with `times` for its two times.
pub open spec fn v1_bytes_with(e: AdsLogEntryView, times: Seq<u8>, all: Seq<V1Item>) -> Seq<u8> {
    v1_names_bytes(e) + (times + (v1_task_bytes(e) + (app_bytes(e.app_name, e.project_name, e.online_change_count)
        + items_bytes(all))))
}

proof fn lemma_v1_read_with(
    s: Seq<u8>,
    p: int,
    e: AdsLogEntryView,
    times: Seq<u8>,
    all: Seq<V1Item>,
    now: Timestamp,
)
    requires
        stands(s, p, v1_bytes_with(e, times, all)),
        v1_names_fit(e),
        items_writable(all, (Map::empty(), Map::empty())),
        two_times(s, p + v1_names_bytes(e).len(), now) == (
            Ok::<(Timestamp, Timestamp), AdsErrorView>((e.plc_timestamp, e.clock_timestamp)),
            p + v1_names_bytes(e).len() + times.len(),
        ),
    ensures
        s[p] == 1,
        v1_entry(s, p, now) == (
            Ok::<AdsLogEntryView, AdsErrorView>(v1_read(e, all)),
            p + v1_bytes_with(e, times, all).len() as int,
        ),
        v1_closed(s, p, now),
{
    let a = v1_names_bytes(e);
    let b = times;
    let c = v1_task_bytes(e);
    let d = app_bytes(e.app_name, e.project_name, e.online_change_count);
    let q = p + a.len() as int;
    let r = q + b.len() as int;
    let t = r + c.len() as int;
    let u = t + d.len() as int;
    lemma_stands_split(s, p, a, b + (c + (d + items_bytes(all))));
    lemma_stands_split(s, q, b, c + (d + items_bytes(all)));
    lemma_stands_split(s, r, c, d + items_bytes(all));
    lemma_stands_split(s, t, d, items_bytes(all));
    lemma_v1_names_read(s, p, e);
    lemma_v1_task_read(s, r, e);
    lemma_app_read(s, t, e.app_name, e.project_name, e.online_change_count);
    assert(v1_head(s, p, now).1 == u);
    lemma_items_read(s, u, all, (Map::empty(), Map::empty()));
}

proof fn lemma_v1_read(s: Seq<u8>, p: int, e: AdsLogEntryView, all: Seq<V1Item>, now: Timestamp)
    requires
        stands(s, p, v1_bytes(e, all)),
        v1_writable(e, all),
    ensures
        s[p] == 1,
        v1_entry(s, p, now) == (
            Ok::<AdsLogEntryView, AdsErrorView>(v1_read(e, all)),
            p + v1_bytes(e, all).len() as int,
        ),
        v1_closed(s, p, now),
{
    let times = times_bytes(e.plc_timestamp, e.clock_timestamp);
    let rest = v1_task_bytes(e) + (app_bytes(e.app_name, e.project_name, e.online_change_count) + items_bytes(all));
    let q = p + v1_names_bytes(e).len() as int;
    lemma_stands_split(s, p, v1_names_bytes(e), times + rest);
    lemma_stands_split(s, q, times, rest);
    lemma_times_read(s, q, e.plc_timestamp, e.clock_timestamp, now);
    lemma_v1_read_with(s, p, e, times, all, now);
}

/// A log entry of the first format whose two times are not set.
pub open spec fn untimed_bytes(e: AdsLogEntryView, all: Seq<V1Item>) -> Seq<u8> {
    v1_bytes_with(e, zeros(16), all)
}

/// A log entry of the first format whose times are not set is read back from its bytes, with
/// `now` for both times.
pub proof fn law_untimed_reads_back(
    before: Seq<u8>,
    e: AdsLogEntryView,
    all: Seq<V1Item>,
    after: Seq<u8>,
    now: Timestamp,
)
    requires
        v1_names_fit(e),
        items_writable(all, (Map::empty(), Map::empty())),
    ensures
        v1_entry(before + untimed_bytes(e, all) + after, before.len() as int, now) == (
            Ok::<AdsLogEntryView, AdsErrorView>(
                v1_read(AdsLogEntryView { plc_timestamp: now, clock_timestamp: now, ..e }, all),
            ),
            before.len() as int + untimed_bytes(e, all).len() as int,
        ),
{
    let s = before + untimed_bytes(e, all) + after;
    let p = before.len() as int;
    let q = p + v1_names_bytes(e).len() as int;
    let rest = v1_task_bytes(e) + (app_bytes(e.app_name, e.project_name, e.online_change_count) + items_bytes(all));
    lemma_stands_between(before, untimed_bytes(e, all), after);
    lemma_stands_split(s, p, v1_names_bytes(e), zeros(16) + rest);
    lemma_stands_split(s, q, zeros(16), rest);
    assert forall|i: int| 0 <= i < 16 implies #[trigger] s[q + i] == 0 by {
        assert(s.subrange(q, q + 16)[i] == zeros(16)[i]);
    }
    assert(crate::wire::u64_at(s, q) == 0 && crate::wire::u64_at(s, q + 8) == 0) by {
        assert(s[q + 0] == 0 && s[q + 1] == 0 && s[q + 2] == 0 && s[q + 3] == 0);
        assert(s[q + 4] == 0 && s[q + 5] == 0 && s[q + 6] == 0 && s[q + 7] == 0);
        assert(s[q + 8] == 0 && s[q + 9] == 0 && s[q + 10] == 0 && s[q + 11] == 0);
        assert(s[q + 12] == 0 && s[q + 13] == 0 && s[q + 14] == 0 && s[q + 15] == 0);
    }
    let read = AdsLogEntryView { plc_timestamp: now, clock_timestamp: now, ..e };
    lemma_v1_read_with(s, p, read, zeros(16), all, now);
}

/// A log entry of the first format is read back from its bytes, whatever stands around them:
/// all its fields, and of its arguments and context variables the last of each index and name.
pub proof fn law_first_format_reads_back(
    before: Seq<u8>,
    e: AdsLogEntryView,
    all: Seq<V1Item>,
    after: Seq<u8>,
    now: Timestamp,
)
    requires
        v1_writable(e, all),
    ensures
        v1_entry(before + v1_bytes(e, all) + after, before.len() as int, now) == (
            Ok::<AdsLogEntryView, AdsErrorView>(v1_read(e, all)),
            before.len() as int + v1_bytes(e, all).len() as int,
        ),
{
    lemma_stands_between(before, v1_bytes(e, all), after);
    lemma_v1_read(before + v1_bytes(e, all) + after, before.len() as int, e, all, now);
}

// The second format.

/// The properties of one scope.
pub struct Scope {
    pub scope: u8,
    pub properties: Seq<Named>,
}

impl Scope {
    pub open spec fn bytes(self) -> Seq<u8> {
        seq![self.scope] + (seq![self.properties.len() as u8] + named_bytes(self.properties))
    }

    /// The properties by the names under which they are kept, added to those already there.
    pub open spec fn added(self, found: Map<Seq<char>, JsonScalarView>) -> Map<Seq<char>, JsonScalarView> {
        properties_added(self.scope, self.properties, found)
    }
}

pub open spec fn properties_added(scope: u8, all: Seq<Named>, found: Map<Seq<char>, JsonScalarView>) -> Map<
    Seq<char>,
    JsonScalarView,
>
    decreases all.len(),
{
    if all.len() == 0 {
        found
    } else {
        properties_added(scope, all.skip(1), found.insert(scope_key(scope, all[0].name), all[0].value))
    }
}

/// Scopes, one behind the other.
pub open spec fn scopes_bytes(all: Seq<Scope>) -> Seq<u8>
    decreases all.len(),
{
    if all.len() == 0 {
        Seq::empty()
    } else {
        all[0].bytes() + scopes_bytes(all.skip(1))
    }
}

pub open spec fn scopes_added(all: Seq<Scope>, found: Map<Seq<char>, JsonScalarView>) -> Map<
    Seq<char>,
    JsonScalarView,
>
    decreases all.len(),
{
    if all.len() == 0 {
        found
    } else {
        scopes_added(all.skip(1), all[0].added(found))
    }
}

/// Each scope can be written, and `count` properties and those of the scopes before it leave
/// room for it.
pub open spec fn scopes_writable(all: Seq<Scope>, count: int) -> bool
    decreases all.len(),
{
    all.len() == 0 || (count < MAX_CONTEXT_VARS && all[0].properties.len() <= 255 && all_writable(all[0].properties)
        && scopes_writable(all.skip(1), count + all[0].properties.len()))
}

proof fn lemma_rest_writable(all: Seq<Named>)
    requires
        all_writable(all),
        all.len() > 0,
    ensures
        all_writable(all.skip(1)),
{
    let rest = all.skip(1);
    assert forall|i: int| 0 <= i < rest.len() implies (#[trigger] rest[i]).writable() by {
        assert(rest[i] == all[i + 1]);
    }
}

proof fn lemma_properties_read(s: Seq<u8>, p: int, scope: u8, all: Seq<Named>, found: Map<Seq<char>, JsonScalarView>)
    requires
        stands(s, p, named_bytes(all)),
        all_writable(all),
    ensures
        v2_properties(s, p, all.len(), scope, found) == (
            Ok::<Map<Seq<char>, JsonScalarView>, AdsErrorView>(properties_added(scope, all, found)),
            p + named_bytes(all).len() as int,
        ),
    decreases all.len(),
{
    if all.len() > 0 {
        lemma_rest_writable(all);
        lemma_stands_split(s, p, all[0].bytes(), named_bytes(all.skip(1)));
        lemma_attribute_read(s, p, all[0]);
        lemma_properties_read(
            s,
            p + all[0].bytes().len() as int,
            scope,
            all.skip(1),
            found.insert(scope_key(scope, all[0].name), all[0].value),
        );
    }
}

proof fn lemma_scopes_read(s: Seq<u8>, p: int, all: Seq<Scope>, count: int, found: Map<Seq<char>, JsonScalarView>)
    requires
        stands(s, p, scopes_bytes(all)),
        scopes_writable(all, count),
    ensures
        v2_scopes(s, p, all.len(), count, found) == (
            Ok::<Map<Seq<char>, JsonScalarView>, AdsErrorView>(scopes_added(all, found)),
            p + scopes_bytes(all).len() as int,
        ),
    decreases all.len(),
{
    if all.len() > 0 {
        let c = all[0];
        let n = c.properties.len() as u8;
        lemma_stands_split(s, p, c.bytes(), scopes_bytes(all.skip(1)));
        lemma_stands_split(s, p, seq![c.scope], seq![n] + named_bytes(c.properties));
        lemma_stands_split(s, p + 1, seq![n], named_bytes(c.properties));
        lemma_byte_read(s, p, c.scope);
        lemma_byte_read(s, p + 1, n);
        lemma_properties_read(s, p + 2, c.scope, c.properties, found);
        lemma_scopes_read(s, p + c.bytes().len() as int, all.skip(1), count + n, c.added(found));
    }
}

/// Values with their types, one behind the other.
pub open spec fn values_bytes(all: Seq<JsonScalarView>) -> Seq<u8>
    decreases all.len(),
{
    if all.len() == 0 {
        Seq::empty()
    } else {
        short_bytes(all[0]) + values_bytes(all.skip(1))
    }
}

pub open spec fn all_sendable(all: Seq<JsonScalarView>) -> bool {
    forall|i: int| 0 <= i < all.len() ==> sendable(#[trigger] all[i])
}

/// The values by their numbers, which start at `next`.
pub open spec fn numbered_from(all: Seq<JsonScalarView>, next: int) -> Map<usize, JsonScalarView> {
    Map::new(|k: usize| next <= k < next + all.len(), |k: usize| all[k - next])
}

proof fn lemma_arguments_read(s: Seq<u8>, p: int, all: Seq<JsonScalarView>, k: int)
    requires
        0 <= k <= all.len(),
        all.len() <= MAX_ARGUMENTS,
        stands(s, p, values_bytes(all.skip(k))),
        all_sendable(all),
    ensures
        v2_arguments(s, p, (all.len() - k) as nat, k + 1, numbered_from(all.take(k), 1)) == (
            Ok::<Map<usize, JsonScalarView>, AdsErrorView>(numbered_from(all, 1)),
            p + values_bytes(all.skip(k)).len() as int,
        ),
    decreases all.len() - k,
{
    let found = numbered_from(all.take(k), 1);
    if k == all.len() {
        assert(all.take(k) =~= all);
    } else {
        let rest = all.skip(k);
        assert(rest.skip(1) =~= all.skip(k + 1));
        lemma_numbered_len(all.take(k));
        lemma_stands_split(s, p, short_bytes(rest[0]), values_bytes(rest.skip(1)));
        lemma_short_read(s, p, all[k]);
        assert(found.insert((k + 1) as usize, all[k]) =~= numbered_from(all.take(k + 1), 1));
        lemma_arguments_read(s, p + short_bytes(all[k]).len() as int, all, k + 1);
    }
}

proof fn lemma_numbered_len(all: Seq<JsonScalarView>)
    requires
        all.len() <= MAX_ARGUMENTS,
    ensures
        numbered_from(all, 1).dom().finite(),
        numbered_from(all, 1).dom().len() == all.len(),
    decreases all.len(),
{
    if all.len() == 0 {
        assert(numbered_from(all, 1).dom() =~= Set::empty());
    } else {
        let front = all.drop_last();
        lemma_numbered_len(front);
        assert(numbered_from(all, 1).dom() =~= numbered_from(front, 1).dom().insert(all.len() as usize));
    }
}

/// A log entry of the second format: what it holds, its arguments and scopes, and what stands
/// behind them within the entry.
pub struct V2Log {
    pub level: LogLevel,
    pub plc_timestamp: Timestamp,
    pub clock_timestamp: Timestamp,
    pub task_index: u8,
    pub cycle: u32,
    pub message: Seq<char>,
    pub logger: Seq<char>,
    pub arguments: Seq<JsonScalarView>,
    pub scopes: Seq<Scope>,
    pub more: Seq<u8>,
}

impl V2Log {
    pub open spec fn head_bytes(self) -> Seq<u8> {
        seq![level_byte(self.level)] + (times_bytes(self.plc_timestamp, self.clock_timestamp) + counts_bytes(
            self.task_index,
            self.cycle,
            self.arguments.len() as u8,
            self.scopes.len() as u8,
        ))
    }

    pub open spec fn body_bytes(self) -> Seq<u8> {
        text_bytes(self.message) + (text_bytes(self.logger) + (values_bytes(self.arguments) + scopes_bytes(
            self.scopes,
        )))
    }

    /// All that its length counts.
    pub open spec fn content(self) -> Seq<u8> {
        self.head_bytes() + (self.body_bytes() + self.more)
    }

    pub open spec fn bytes(self) -> Seq<u8> {
        seq![2u8] + (le16(self.content().len() as u16) + self.content())
    }

    pub open spec fn writable(self) -> bool {
        &&& timely(self.plc_timestamp)
        &&& timely(self.clock_timestamp)
        &&& fits(self.message)
        &&& fits(self.logger)
        &&& self.arguments.len() <= MAX_ARGUMENTS
        &&& all_sendable(self.arguments)
        &&& self.scopes.len() <= 255
        &&& scopes_writable(self.scopes, 0)
        &&& self.content().len() <= 0xFFFF
    }

    /// The entry that is read: the names of its task come from elsewhere.
    pub open spec fn read(self) -> AdsLogEntryView {
        AdsLogEntryView {
            version: AdsProtocolVersion::V2,
            message: self.message,
            logger: self.logger,
            level: self.level,
            plc_timestamp: self.plc_timestamp,
            clock_timestamp: self.clock_timestamp,
            task_index: self.task_index as i32,
            task_name: Seq::empty(),
            task_cycle_counter: self.cycle,
            app_name: Seq::empty(),
            project_name: Seq::empty(),
            online_change_count: 0,
            trace_id: zeros(16),
            span_id: zeros(8),
            arguments: numbered_from(self.arguments, 1),
            context: scopes_added(self.scopes, Map::empty()),
        }
    }
}

proof fn lemma_v2_head_read(s: Seq<u8>, p: int, e: V2Log, now: Timestamp)
    requires
        stands(s, p, e.bytes()),
        e.writable(),
    ensures
        s[p] == 2,
        v2_head(s, p, now).1 == p + 3 + e.head_bytes().len(),
        v2_head(s, p, now).0 matches Ok(head) && {
            &&& head.length == e.content().len()
            &&& head.start == p + 3
            &&& head.level == e.level
            &&& head.plc_timestamp == e.plc_timestamp
            &&& head.clock_timestamp == e.clock_timestamp
            &&& head.task_index == e.task_index
            &&& head.cycle == e.cycle
            &&& head.arguments == e.arguments.len()
            &&& head.scopes == e.scopes.len()
        },
        stands(s, p + 3 + e.head_bytes().len(), e.body_bytes()),
{
    let n = e.content().len() as u16;
    let level = seq![level_byte(e.level)];
    let times = times_bytes(e.plc_timestamp, e.clock_timestamp);
    let counts = counts_bytes(e.task_index, e.cycle, e.arguments.len() as u8, e.scopes.len() as u8);
    lemma_stands_split(s, p, seq![2u8], le16(n) + e.content());
    lemma_stands_split(s, p + 1, le16(n), e.content());
    lemma_stands_split(s, p + 3, e.head_bytes(), e.body_bytes() + e.more);
    lemma_stands_split(s, p + 3 + e.head_bytes().len() as int, e.body_bytes(), e.more);
    lemma_stands_split(s, p + 3, level, times + counts);
    lemma_stands_split(s, p + 4, times, counts);
    lemma_byte_read(s, p, 2u8);
    lemma_word_read(s, p + 1, n);
    lemma_byte_read(s, p + 3, level_byte(e.level));
    lemma_times_read(s, p + 4, e.plc_timestamp, e.clock_timestamp, now);
    lemma_counts_read(
        s,
        p + 4 + times.len() as int,
        e.task_index,
        e.cycle,
        e.arguments.len() as u8,
        e.scopes.len() as u8,
    );
}

proof fn lemma_v2_body_read(s: Seq<u8>, p: int, e: V2Log)
    requires
        stands(s, p, e.body_bytes()),
        e.writable(),
    ensures
        v2_body(s, p, e.arguments.len() as u8, e.scopes.len() as u8).0 == Ok::<
            (Seq<char>, Seq<char>, Map<usize, JsonScalarView>, Map<Seq<char>, JsonScalarView>),
            AdsErrorView,
        >((e.message, e.logger, numbered_from(e.arguments, 1), scopes_added(e.scopes, Map::empty()))),
{
    let values = values_bytes(e.arguments);
    let scopes = scopes_bytes(e.scopes);
    let q = p + text_bytes(e.message).len() as int;
    let r = q + text_bytes(e.logger).len() as int;
    lemma_stands_split(s, p, text_bytes(e.message), text_bytes(e.logger) + (values + scopes));
    lemma_stands_split(s, q, text_bytes(e.logger), values + scopes);
    lemma_stands_split(s, r, values, scopes);
    lemma_text_read(s, p, e.message);
    lemma_text_read(s, q, e.logger);
    assert(e.arguments.skip(0) =~= e.arguments);
    assert(numbered_from(e.arguments.take(0), 1) =~= Map::empty());
    lemma_arguments_read(s, r, e.arguments, 0);
    lemma_scopes_read(s, r + values.len() as int, e.scopes, 0, Map::empty());
}

proof fn lemma_v2_read(s: Seq<u8>, p: int, e: V2Log, now: Timestamp)
    requires
        stands(s, p, e.bytes()),
        e.writable(),
    ensures
        s[p] == 2,
        v2_entry(s, p, now) == (Ok::<AdsLogEntryView, AdsErrorView>(e.read()), p + e.bytes().len() as int),
{
    lemma_v2_head_read(s, p, e, now);
    lemma_v2_body_read(s, p + 3 + e.head_bytes().len() as int, e);
}

/// A log entry of the second format is read back from its bytes, whatever stands around them,
/// and the next message is looked for behind all of it, also where its sender added more than
/// is read.
pub proof fn law_second_format_reads_back(before: Seq<u8>, e: V2Log, after: Seq<u8>, now: Timestamp)
    requires
        e.writable(),
    ensures
        v2_entry(before + e.bytes() + after, before.len() as int, now) == (
            Ok::<AdsLogEntryView, AdsErrorView>(e.read()),
            before.len() as int + e.bytes().len() as int,
        ),
{
    lemma_stands_between(before, e.bytes(), after);
    lemma_v2_read(before + e.bytes() + after, before.len() as int, e, now);
}

// Registrations.

/// The texts of a registration fit their length bytes.
pub open spec fn registration_writable(r: RegistrationMessageView) -> bool {
    fits(r.task_name) && fits(r.app_name) && fits(r.project_name)
}

/// A registration as it stands in a buffer.
pub open spec fn registration_bytes(r: RegistrationMessageView) -> Seq<u8> {
    seq![3u8] + (seq![r.task_index] + (text_bytes(r.task_name) + app_bytes(
        r.app_name,
        r.project_name,
        r.online_change_count,
    )))
}

proof fn lemma_registration_read(s: Seq<u8>, p: int, r: RegistrationMessageView)
    requires
        stands(s, p, registration_bytes(r)),
        registration_writable(r),
    ensures
        s[p] == 3,
        registration(s, p) == (
            Ok::<RegistrationMessageView, AdsErrorView>(r),
            p + registration_bytes(r).len() as int,
        ),
{
    let app = app_bytes(r.app_name, r.project_name, r.online_change_count);
    lemma_stands_split(s, p, seq![3u8], seq![r.task_index] + (text_bytes(r.task_name) + app));
    lemma_stands_split(s, p + 1, seq![r.task_index], text_bytes(r.task_name) + app);
    lemma_stands_split(s, p + 2, text_bytes(r.task_name), app);
    lemma_byte_read(s, p, 3u8);
    lemma_byte_read(s, p + 1, r.task_index);
    lemma_text_read(s, p + 2, r.task_name);
    lemma_app_read(
        s,
        p + 2 + text_bytes(r.task_name).len() as int,
        r.app_name,
        r.project_name,
        r.online_change_count,
    );
}

/// A registration is read back from its bytes, whatever stands around them.
pub proof fn law_registration_reads_back(before: Seq<u8>, r: RegistrationMessageView, after: Seq<u8>)
    requires
        registration_writable(r),
    ensures
        registration(before + registration_bytes(r) + after, before.len() as int) == (
            Ok::<RegistrationMessageView, AdsErrorView>(r),
            before.len() as int + registration_bytes(r).len() as int,
        ),
{
    lemma_stands_between(before, registration_bytes(r), after);
    lemma_registration_read(before + registration_bytes(r) + after, before.len() as int, r);
}

// Spans.

pub open spec fn span_kind_byte(kind: SpanKind) -> u8 {
    match kind {
        SpanKind::Internal => 0,
        SpanKind::Server => 1,
        SpanKind::Client => 2,
        SpanKind::Producer => 3,
        SpanKind::Consumer => 4,
    }
}

pub open spec fn span_status_byte(status: SpanStatusCode) -> u8 {
    match status {
        SpanStatusCode::Unset => 0,
        SpanStatusCode::Okay => 1,
        SpanStatusCode::Error => 2,
    }
}

/// An event of a span.
pub struct SpanEvent {
    pub name: Seq<char>,
    pub timestamp: Timestamp,
    pub attributes: Seq<Named>,
}

impl SpanEvent {
    pub open spec fn writable(self) -> bool {
        &&& fits(self.name)
        &&& timely(self.timestamp)
        &&& self.attributes.len() <= MAX_SPAN_ATTRIBUTES
        &&& all_writable(self.attributes)
    }

    pub open spec fn bytes(self) -> Seq<u8> {
        text_bytes(self.name) + (time_bytes(self.timestamp) + (seq![self.attributes.len() as u8] + named_bytes(
            self.attributes,
        )))
    }

    pub open spec fn read(self) -> AdsSpanEventView {
        AdsSpanEventView {
            timestamp: self.timestamp,
            name: self.name,
            attributes: by_name(self.attributes, Map::empty()),
        }
    }
}

proof fn lemma_event_read(s: Seq<u8>, p: int, e: SpanEvent, now: Timestamp)
    requires
        stands(s, p, e.bytes()),
        e.writable(),
    ensures
        span_event(s, p, now) == (Ok::<AdsSpanEventView, AdsErrorView>(e.read()), p + e.bytes().len() as int),
{
    let n = e.attributes.len() as u8;
    let attrs = named_bytes(e.attributes);
    let q = p + text_bytes(e.name).len() as int;
    lemma_stands_split(s, p, text_bytes(e.name), time_bytes(e.timestamp) + (seq![n] + attrs));
    lemma_stands_split(s, q, time_bytes(e.timestamp), seq![n] + attrs);
    lemma_stands_split(s, q + 8, seq![n], attrs);
    lemma_text_read(s, p, e.name);
    lemma_time_read(s, q, e.timestamp, now);
    lemma_byte_read(s, q + 8, n);
    lemma_attributes_read(s, q + 9, e.attributes, Map::empty());
}

pub open spec fn events_writable(all: Seq<SpanEvent>) -> bool {
    forall|i: int| 0 <= i < all.len() ==> (#[trigger] all[i]).writable()
}

/// Events, one behind the other.
pub open spec fn events_bytes(all: Seq<SpanEvent>) -> Seq<u8>
    decreases all.len(),
{
    if all.len() == 0 {
        Seq::empty()
    } else {
        all[0].bytes() + events_bytes(all.skip(1))
    }
}

pub open spec fn events_read(all: Seq<SpanEvent>) -> Seq<AdsSpanEventView> {
    all.map_values(|e: SpanEvent| e.read())
}

proof fn lemma_events_read(s: Seq<u8>, p: int, all: Seq<SpanEvent>, now: Timestamp, found: Seq<AdsSpanEventView>)
    requires
        stands(s, p, events_bytes(all)),
        events_writable(all),
    ensures
        span_events(s, p, all.len(), now, found) == (
            Ok::<Seq<AdsSpanEventView>, AdsErrorView>(found + events_read(all)),
            p + events_bytes(all).len() as int,
        ),
    decreases all.len(),
{
    if all.len() == 0 {
        assert(found + events_read(all) =~= found);
    } else {
        let rest = all.skip(1);
        assert forall|i: int| 0 <= i < rest.len() implies (#[trigger] rest[i]).writable() by {
            assert(rest[i] == all[i + 1]);
        }
        lemma_stands_split(s, p, all[0].bytes(), events_bytes(rest));
        lemma_event_read(s, p, all[0], now);
        lemma_events_read(s, p + all[0].bytes().len() as int, rest, now, found.push(all[0].read()));
        assert(found.push(all[0].read()) + events_read(rest) =~= found + events_read(all));
    }
}

/// A completed span: what it holds, and what stands behind that within the span.
pub struct Span {
    pub trace_id: Seq<u8>,
    pub span_id: Seq<u8>,
    pub parent_span_id: Seq<u8>,
    pub kind: SpanKind,
    pub status_code: SpanStatusCode,
    pub start_time: Timestamp,
    pub end_time: Timestamp,
    pub task_index: u8,
    pub cycle: u32,
    pub name: Seq<char>,
    pub status_message: Seq<char>,
    pub events: Seq<SpanEvent>,
    pub attributes: Seq<Named>,
    pub more: Seq<u8>,
}

impl Span {
    pub open spec fn ids_bytes(self) -> Seq<u8> {
        self.trace_id + (self.span_id + self.parent_span_id)
    }

    pub open spec fn kinds_bytes(self) -> Seq<u8> {
        seq![span_kind_byte(self.kind)] + seq![span_status_byte(self.status_code)]
    }

    pub open spec fn head_bytes(self) -> Seq<u8> {
        self.ids_bytes() + (self.kinds_bytes() + (times_bytes(self.start_time, self.end_time) + counts_bytes(
            self.task_index,
            self.cycle,
            self.events.len() as u8,
            self.attributes.len() as u8,
        )))
    }

    pub open spec fn body_bytes(self) -> Seq<u8> {
        text_bytes(self.name) + (text_bytes(self.status_message) + (events_bytes(self.events) + named_bytes(
            self.attributes,
        )))
    }

    /// All that its length counts.
    pub open spec fn content(self) -> Seq<u8> {
        self.head_bytes() + (self.body_bytes() + self.more)
    }

    pub open spec fn bytes(self) -> Seq<u8> {
        seq![5u8] + (le16(self.content().len() as u16) + self.content())
    }

    pub open spec fn writable(self) -> bool {
        &&& self.trace_id.len() == 16
        &&& self.span_id.len() == 8
        &&& self.parent_span_id.len() == 8
        &&& timely(self.start_time)
        &&& timely(self.end_time)
        &&& fits(self.name)
        &&& fits(self.status_message)
        &&& self.events.len() <= MAX_SPAN_EVENTS
        &&& events_writable(self.events)
        &&& self.attributes.len() <= MAX_SPAN_ATTRIBUTES
        &&& all_writable(self.attributes)
        &&& self.content().len() <= 0xFFFF
    }

    pub open spec fn read(self) -> AdsSpanEntryView {
        AdsSpanEntryView {
            trace_id: self.trace_id,
            span_id: self.span_id,
            parent_span_id: self.parent_span_id,
            name: self.name,
            kind: self.kind,
            status_code: self.status_code,
            status_message: self.status_message,
            start_time: self.start_time,
            end_time: self.end_time,
            task_index: self.task_index as i32,
            task_cycle_counter: self.cycle,
            attributes: by_name(self.attributes, Map::empty()),
            events: events_read(self.events),
        }
    }
}

proof fn lemma_span_ids_read(s: Seq<u8>, p: int, e: Span)
    requires
        stands(s, p, e.ids_bytes()),
        e.writable(),
    ensures
        span_ids(s, p) == (
            Ok::<(Seq<u8>, Seq<u8>, Seq<u8>), AdsErrorView>((e.trace_id, e.span_id, e.parent_span_id)),
            p + 32,
        ),
{
    lemma_stands_split(s, p, e.trace_id, e.span_id + e.parent_span_id);
    lemma_stands_split(s, p + 16, e.span_id, e.parent_span_id);
}

proof fn lemma_span_head_read(s: Seq<u8>, p: int, e: Span, now: Timestamp)
    requires
        stands(s, p, e.head_bytes()),
        e.writable(),
    ensures
        span_ids(s, p) == (
            Ok::<(Seq<u8>, Seq<u8>, Seq<u8>), AdsErrorView>((e.trace_id, e.span_id, e.parent_span_id)),
            p + 32,
        ),
        span_kinds(s, p + 32) == (Ok::<(SpanKind, SpanStatusCode), AdsErrorView>((e.kind, e.status_code)), p + 34),
        two_times(s, p + 34, now) == (
            Ok::<(Timestamp, Timestamp), AdsErrorView>((e.start_time, e.end_time)),
            p + 50,
        ),
        span_counts(s, p + 50) == (
            Ok::<(u8, u32, u8, u8), AdsErrorView>(
                (e.task_index, e.cycle, e.events.len() as u8, e.attributes.len() as u8),
            ),
            p + 57,
        ),
        e.head_bytes().len() == 57,
{
    let times = times_bytes(e.start_time, e.end_time);
    let counts = counts_bytes(e.task_index, e.cycle, e.events.len() as u8, e.attributes.len() as u8);
    let kind = seq![span_kind_byte(e.kind)];
    let status = seq![span_status_byte(e.status_code)];
    lemma_stands_split(s, p, e.ids_bytes(), e.kinds_bytes() + (times + counts));
    lemma_stands_split(s, p + 32, e.kinds_bytes(), times + counts);
    lemma_stands_split(s, p + 34, times, counts);
    lemma_stands_split(s, p + 32, kind, status);
    lemma_span_ids_read(s, p, e);
    lemma_byte_read(s, p + 32, span_kind_byte(e.kind));
    lemma_byte_read(s, p + 33, span_status_byte(e.status_code));
    lemma_times_read(s, p + 34, e.start_time, e.end_time, now);
    lemma_counts_read(s, p + 50, e.task_index, e.cycle, e.events.len() as u8, e.attributes.len() as u8);
}

proof fn lemma_span_body_read(s: Seq<u8>, p: int, e: Span, now: Timestamp)
    requires
        stands(s, p, e.body_bytes()),
        e.writable(),
    ensures
        span_body(s, p, e.events.len() as u8, e.attributes.len() as u8, now).0 == Ok::<
            (Seq<char>, Seq<char>, Seq<AdsSpanEventView>, Map<Seq<char>, JsonScalarView>),
            AdsErrorView,
        >((e.name, e.status_message, events_read(e.events), by_name(e.attributes, Map::empty()))),
{
    let events = events_bytes(e.events);
    let attrs = named_bytes(e.attributes);
    let q = p + text_bytes(e.name).len() as int;
    let r = q + text_bytes(e.status_message).len() as int;
    lemma_stands_split(s, p, text_bytes(e.name), text_bytes(e.status_message) + (events + attrs));
    lemma_stands_split(s, q, text_bytes(e.status_message), events + attrs);
    lemma_stands_split(s, r, events, attrs);
    lemma_text_read(s, p, e.name);
    lemma_text_read(s, q, e.status_message);
    lemma_events_read(s, r, e.events, now, Seq::empty());
    assert(Seq::<AdsSpanEventView>::empty() + events_read(e.events) =~= events_read(e.events));
    lemma_attributes_read(s, r + events.len() as int, e.attributes, Map::empty());
}

proof fn lemma_span_read(s: Seq<u8>, p: int, e: Span, now: Timestamp)
    requires
        stands(s, p, e.bytes()),
        e.writable(),
    ensures
        s[p] == 5,
        span_entry(s, p, now) == (Ok::<AdsSpanEntryView, AdsErrorView>(e.read()), p + e.bytes().len() as int),
{
    let n = e.content().len() as u16;
    lemma_stands_split(s, p, seq![5u8], le16(n) + e.content());
    lemma_stands_split(s, p + 1, le16(n), e.content());
    lemma_stands_split(s, p + 3, e.head_bytes(), e.body_bytes() + e.more);
    lemma_byte_read(s, p, 5u8);
    lemma_word_read(s, p + 1, n);
    lemma_span_head_read(s, p + 3, e, now);
    lemma_stands_split(s, p + 60, e.body_bytes(), e.more);
    lemma_span_body_read(s, p + 60, e, now);
}

/// A span is read back from its bytes, whatever stands around them: all its fields, its events
/// in order, and of its attributes the last of each name.
pub proof fn law_span_reads_back(before: Seq<u8>, e: Span, after: Seq<u8>, now: Timestamp)
    requires
        e.writable(),
    ensures
        span_entry(before + e.bytes() + after, before.len() as int, now) == (
            Ok::<AdsSpanEntryView, AdsErrorView>(e.read()),
            before.len() as int + e.bytes().len() as int,
        ),
{
    lemma_stands_between(before, e.bytes(), after);
    lemma_span_read(before + e.bytes() + after, before.len() as int, e, now);
}

// Buffers.

/// A message of any kind.
pub enum Message {
    First(AdsLogEntryView, Seq<V1Item>),
    Second(V2Log),
    Registration(RegistrationMessageView),
    Span(Span),
}

impl Message {
    pub open spec fn writable(self) -> bool {
        match self {
            Message::First(e, items) => v1_writable(e, items),
            Message::Second(e) => e.writable(),
            Message::Registration(r) => registration_writable(r),
            Message::Span(e) => e.writable(),
        }
    }

    pub open spec fn bytes(self) -> Seq<u8> {
        match self {
            Message::First(e, items) => v1_bytes(e, items),
            Message::Second(e) => e.bytes(),
            Message::Registration(r) => registration_bytes(r),
            Message::Span(e) => e.bytes(),
        }
    }

    /// What was found, with this message added.
    pub open spec fn added(self, found: ParseResultView) -> ParseResultView {
        match self {
            Message::First(e, items) => found.with_entry(v1_read(e, items)),
            Message::Second(e) => found.with_entry(e.read()),
            Message::Registration(r) => found.with_registration(r),
            Message::Span(e) => found.with_span(e.read()),
        }
    }
}

/// Messages, one behind the other.
pub open spec fn buffer_bytes(all: Seq<Message>) -> Seq<u8>
    decreases all.len(),
{
    if all.len() == 0 {
        Seq::empty()
    } else {
        all[0].bytes() + buffer_bytes(all.skip(1))
    }
}

/// All messages, in order, added to what was found.
pub open spec fn gathered(all: Seq<Message>, found: ParseResultView) -> ParseResultView
    decreases all.len(),
{
    if all.len() == 0 {
        found
    } else {
        gathered(all.skip(1), all[0].added(found))
    }
}

/// The messages from `p` on.
#[verifier::opaque]
spec fn read_on(s: Seq<u8>, p: int, now: Timestamp, found: ParseResultView) -> Result<ParseResultView, AdsErrorView> {
    messages(s, p, now, found)
}

proof fn lemma_message_read(s: Seq<u8>, p: int, m: Message, now: Timestamp, found: ParseResultView)
    requires
        stands(s, p, m.bytes()),
        m.writable(),
    ensures
        read_on(s, p, now, found) == read_on(s, p + m.bytes().len(), now, m.added(found)),
{
    reveal(read_on);
    assert(m.bytes().len() > 0);
    match m {
        Message::First(e, items) => lemma_v1_read(s, p, e, items, now),
        Message::Second(e) => lemma_v2_read(s, p, e, now),
        Message::Registration(r) => lemma_registration_read(s, p, r),
        Message::Span(e) => lemma_span_read(s, p, e, now),
    }
}

proof fn lemma_message_ends(s: Seq<u8>, p: int, m: Message, now: Timestamp)
    requires
        stands(s, p, m.bytes()),
        m.writable(),
    ensures
        m.bytes().len() > 0,
        message_end(s, p, now) == Some(p + m.bytes().len() as int),
{
    assert(m.bytes().len() > 0);
    match m {
        Message::First(e, items) => lemma_v1_read(s, p, e, items, now),
        Message::Second(e) => lemma_v2_read(s, p, e, now),
        Message::Registration(r) => lemma_registration_read(s, p, r),
        Message::Span(e) => lemma_span_read(s, p, e, now),
    }
}

proof fn lemma_messages_complete(s: Seq<u8>, p: int, all: Seq<Message>, now: Timestamp)
    requires
        stands(s, p, buffer_bytes(all)),
        p + buffer_bytes(all).len() == s.len(),
        forall|i: int| 0 <= i < all.len() ==> (#[trigger] all[i]).writable(),
    ensures
        complete_from(s, p, now),
    decreases all.len(),
{
    if all.len() > 0 {
        let rest = all.skip(1);
        assert forall|i: int| 0 <= i < rest.len() implies (#[trigger] rest[i]).writable() by {
            assert(rest[i] == all[i + 1]);
        }
        lemma_stands_split(s, p, all[0].bytes(), buffer_bytes(rest));
        lemma_message_ends(s, p, all[0], now);
        lemma_messages_complete(s, p + all[0].bytes().len() as int, rest, now);
    }
}

/// A buffer that messages were written into is made of complete messages.
pub proof fn law_written_buffers_are_complete(all: Seq<Message>, now: Timestamp)
    requires
        forall|i: int| 0 <= i < all.len() ==> (#[trigger] all[i]).writable(),
    ensures
        complete(buffer_bytes(all), now),
{
    let s = buffer_bytes(all);
    assert(s.subrange(0, s.len() as int) =~= s);
    lemma_messages_complete(s, 0, all, now);
}

proof fn lemma_end_read(s: Seq<u8>, p: int, now: Timestamp, found: ParseResultView)
    requires
        0 <= p,
        p < s.len() ==> s[p] == 0 || s[p] == 255,
    ensures
        read_on(s, p, now, found) == Ok::<ParseResultView, AdsErrorView>(found),
{
    reveal(read_on);
}

proof fn lemma_buffer_read(s: Seq<u8>, p: int, all: Seq<Message>, now: Timestamp, found: ParseResultView)
    requires
        stands(s, p, buffer_bytes(all)),
        forall|i: int| 0 <= i < all.len() ==> (#[trigger] all[i]).writable(),
        p + buffer_bytes(all).len() < s.len() ==> {
            let end = s[p + buffer_bytes(all).len()];
            end == 0 || end == 255
        },
    ensures
        read_on(s, p, now, found) == Ok::<ParseResultView, AdsErrorView>(gathered(all, found)),
    decreases all.len(),
{
    if all.len() == 0 {
        lemma_end_read(s, p, now, found);
    } else {
        let rest = all.skip(1);
        assert forall|i: int| 0 <= i < rest.len() implies (#[trigger] rest[i]).writable() by {
            assert(rest[i] == all[i + 1]);
        }
        lemma_stands_split(s, p, all[0].bytes(), buffer_bytes(rest));
        lemma_message_read(s, p, all[0], now, found);
        lemma_buffer_read(s, p + all[0].bytes().len() as int, rest, now, all[0].added(found));
    }
}

/// A buffer gives all messages that were written into it, in order and whatever their kinds,
/// and so does one with padding behind them.
pub proof fn law_buffers_read_back(all: Seq<Message>, padding: Seq<u8>, now: Timestamp)
    requires
        forall|i: int| 0 <= i < all.len() ==> (#[trigger] all[i]).writable(),
        padding.len() > 0 ==> padding[0] == 0 || padding[0] == 255,
        buffer_bytes(all).len() + padding.len() <= MAX_MESSAGE_SIZE,
    ensures
        parse_outcome(buffer_bytes(all) + padding, now) == Ok::<ParseResultView, AdsErrorView>(
            gathered(all, ParseResultView::nothing()),
        ),
{
    let s = buffer_bytes(all) + padding;
    assert(s.subrange(0, buffer_bytes(all).len() as int) =~= buffer_bytes(all));
    lemma_buffer_read(s, 0, all, now, ParseResultView::nothing());
    reveal(read_on);
}

} // verus!
