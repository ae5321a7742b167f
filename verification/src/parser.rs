//! The parser of log, registration and span messages.
use vstd::prelude::*;

use crate::error::{outcome, AdsError, AdsErrorView};
use crate::keymap::KeyMap;
use crate::models::{JsonScalar, JsonScalarView, LogLevel, SpanKind, SpanStatusCode};
use crate::protocol::{
    AdsLogEntry, AdsLogEntryView, AdsMetricEntry, AdsMetricEntryView, AdsProtocolVersion, AdsSpanEntry,
    AdsSpanEntryView, AdsSpanEvent, AdsSpanEventView, RegistrationMessage, RegistrationMessageView, TraceWireEvent,
};
use crate::reader::{byte, bytes, dword, int32, left, string, time, took, word, BytesReader, Step};
use crate::text::{dec, numbered, with_number};
use crate::time::{utc_now, Timestamp};
use crate::value::{remap_v2_type_id, remapped, tagged_value, typed_value, EnumTag};
use crate::wire::{get_array16, get_array8};

verus! {

broadcast use crate::value::lemma_typed_value_forward;

/// The most arguments of a message.
pub const MAX_ARGUMENTS: usize = 32;

/// The most context variables of a message.
pub const MAX_CONTEXT_VARS: usize = 64;

/// The most bytes of a buffer.
pub const MAX_MESSAGE_SIZE: usize = 1_048_576;

/// The most events of a span.
pub const MAX_SPAN_EVENTS: usize = 128;

/// The most attributes of a span or an event.
pub const MAX_SPAN_ATTRIBUTES: usize = 64;

/// The name under which a context property is kept.
pub open spec fn scope_key(scope: u8, name: Seq<char>) -> Seq<char> {
    "scope_"@ + dec(scope as nat) + "_"@ + name
}

/// The error for a buffer of `n` bytes, which is too long.
pub open spec fn oversize(n: nat) -> AdsErrorView {
    AdsErrorView::ParseError("Message size "@ + dec(n) + " exceeds maximum 1048576"@)
}

pub open spec fn zeros(n: nat) -> Seq<u8> {
    Seq::new(n, |i: int| 0u8)
}

// The first format.

/// Version, message, logger and level.
pub open spec fn v1_names(s: Seq<u8>, pos: int) -> Step<(AdsProtocolVersion, Seq<char>, Seq<char>, LogLevel)> {
    match byte(s, pos) {
        (Err(e), p) => (Err(e), p),
        (Ok(b), p) => match AdsProtocolVersion::of(b) {
            None => (Err(AdsErrorView::InvalidVersion(b)), p),
            Some(version) => match string(s, p) {
                (Err(e), p) => (Err(e), p),
                (Ok(message), p) => match string(s, p) {
                    (Err(e), p) => (Err(e), p),
                    (Ok(logger), p) => match word(s, p) {
                        (Err(e), p) => (Err(e), p),
                        (Ok(n), p) => match LogLevel::of((n % 256) as u8) {
                            None => (Err(AdsErrorView::ParseError("Invalid log level: "@ + dec(n as nat))), p),
                            Some(level) => (Ok((version, message, logger, level)), p),
                        },
                    },
                },
            },
        },
    }
}

/// The PLC's time and the clock's time.
pub open spec fn two_times(s: Seq<u8>, pos: int, now: Timestamp) -> Step<(Timestamp, Timestamp)> {
    match time(s, pos, now) {
        (Err(e), p) => (Err(e), p),
        (Ok(a), p) => match time(s, p, now) {
            (Err(e), p) => (Err(e), p),
            (Ok(b), p) => (Ok((a, b)), p),
        },
    }
}

/// Task index, task name and cycle counter.
pub open spec fn v1_task(s: Seq<u8>, pos: int) -> Step<(i32, Seq<char>, u32)> {
    match int32(s, pos) {
        (Err(e), p) => (Err(e), p),
        (Ok(index), p) => match string(s, p) {
            (Err(e), p) => (Err(e), p),
            (Ok(name), p) => match dword(s, p) {
                (Err(e), p) => (Err(e), p),
                (Ok(cycle), p) => (Ok((index, name, cycle)), p),
            },
        },
    }
}

/// Application name, project name and online-change count.
pub open spec fn app_names(s: Seq<u8>, pos: int) -> Step<(Seq<char>, Seq<char>, u32)> {
    match string(s, pos) {
        (Err(e), p) => (Err(e), p),
        (Ok(app), p) => match string(s, p) {
            (Err(e), p) => (Err(e), p),
            (Ok(project), p) => match dword(s, p) {
                (Err(e), p) => (Err(e), p),
                (Ok(changes), p) => (Ok((app, project, changes)), p),
            },
        },
    }
}

/// All of a log entry of the first format before its arguments and context.
pub open spec fn v1_head(s: Seq<u8>, pos: int, now: Timestamp) -> Step<AdsLogEntryView> {
    match v1_names(s, pos) {
        (Err(e), p) => (Err(e), p),
        (Ok((version, message, logger, level)), p) => match two_times(s, p, now) {
            (Err(e), p) => (Err(e), p),
            (Ok((plc_timestamp, clock_timestamp)), p) => match v1_task(s, p) {
                (Err(e), p) => (Err(e), p),
                (Ok((task_index, task_name, task_cycle_counter)), p) => match app_names(s, p) {
                    (Err(e), p) => (Err(e), p),
                    (Ok((app_name, project_name, online_change_count)), p) => (
                        Ok(
                            AdsLogEntryView {
                                version,
                                message,
                                logger,
                                level,
                                plc_timestamp,
                                clock_timestamp,
                                task_index,
                                task_name,
                                task_cycle_counter,
                                app_name,
                                project_name,
                                online_change_count,
                                trace_id: zeros(16),
                                span_id: zeros(8),
                                arguments: Map::empty(),
                                context: Map::empty(),
                            },
                        ),
                        p,
                    ),
                },
            },
        },
    }
}

/// An argument: its index and its value.
pub open spec fn v1_argument(s: Seq<u8>, pos: int) -> Step<(usize, JsonScalarView)> {
    match byte(s, pos) {
        (Err(e), p) => (Err(e), p),
        (Ok(index), p) => match tagged_value(s, p) {
            (Err(e), p) => (Err(e), p),
            (Ok(v), p) => (Ok((index as usize, v)), p),
        },
    }
}

/// A context property: the name under which it is kept and its value.
pub open spec fn v1_property(s: Seq<u8>, pos: int) -> Step<(Seq<char>, JsonScalarView)> {
    match byte(s, pos) {
        (Err(e), p) => (Err(e), p),
        (Ok(scope), p) => match string(s, p) {
            (Err(e), p) => (Err(e), p),
            (Ok(name), p) => match tagged_value(s, p) {
                (Err(e), p) => (Err(e), p),
                (Ok(v), p) => (Ok((scope_key(scope, name), v)), p),
            },
        },
    }
}

pub proof fn lemma_v1_item_forward(s: Seq<u8>, pos: int)
    ensures
        v1_argument(s, pos).1 >= pos,
        v1_property(s, pos).1 >= pos,
        pos <= s.len() ==> v1_argument(s, pos).1 <= s.len(),
        pos <= s.len() ==> v1_property(s, pos).1 <= s.len(),
{
}

pub type Items = (Map<usize, JsonScalarView>, Map<Seq<char>, JsonScalarView>);

/// The arguments and context up to the end marker, added to those already read.
pub open spec fn v1_items(s: Seq<u8>, pos: int, items: Items) -> Step<Items>
    decreases s.len() - pos,
{
    proof {
        lemma_v1_item_forward(s, pos + 1);
    }
    if pos < 0 || pos >= s.len() {
        (Ok(items), pos)
    } else if s[pos] == 0 || s[pos] == 255 {
        (Ok(items), pos + 1)
    } else if s[pos] == 1 {
        if items.0.dom().len() >= MAX_ARGUMENTS {
            (
                Err(
                    AdsErrorView::ParseError(
                        "Too many arguments: "@ + dec(items.0.dom().len() + 1) + " exceeds maximum 32"@,
                    ),
                ),
                pos + 1,
            )
        } else {
            match v1_argument(s, pos + 1) {
                (Err(e), p) => (Err(e), p),
                (Ok((k, v)), p) => v1_items(s, p, (items.0.insert(k, v), items.1)),
            }
        }
    } else if s[pos] == 2 {
        if items.1.dom().len() >= MAX_CONTEXT_VARS {
            (
                Err(
                    AdsErrorView::ParseError(
                        "Too many context variables: "@ + dec(items.1.dom().len() + 1) + " exceeds maximum 64"@,
                    ),
                ),
                pos + 1,
            )
        } else {
            match v1_property(s, pos + 1) {
                (Err(e), p) => (Err(e), p),
                (Ok((k, v)), p) => v1_items(s, p, (items.0, items.1.insert(k, v))),
            }
        }
    } else {
        v1_items(s, pos + 1, items)
    }
}

/// A log entry of the first format.
pub open spec fn v1_entry(s: Seq<u8>, pos: int, now: Timestamp) -> Step<AdsLogEntryView> {
    match v1_head(s, pos, now) {
        (Err(e), p) => (Err(e), p),
        (Ok(head), p) => match v1_items(s, p, (Map::empty(), Map::empty())) {
            (Err(e), p) => (Err(e), p),
            (Ok((arguments, context)), p) => (Ok(AdsLogEntryView { arguments, context, ..head }), p),
        },
    }
}

// Attributes, arguments and context of the second format: the type is one byte.

/// A value with its one-byte type before it.
pub open spec fn short_value(s: Seq<u8>, pos: int) -> Step<JsonScalarView> {
    match byte(s, pos) {
        (Err(e), p) => (Err(e), p),
        (Ok(kind), p) => typed_value(s, p, remapped(kind as int), EnumTag::Byte),
    }
}

/// A name and a value.
pub open spec fn attribute(s: Seq<u8>, pos: int) -> Step<(Seq<char>, JsonScalarView)> {
    match string(s, pos) {
        (Err(e), p) => (Err(e), p),
        (Ok(name), p) => match short_value(s, p) {
            (Err(e), p) => (Err(e), p),
            (Ok(v), p) => (Ok((name, v)), p),
        },
    }
}

/// `n` attributes, added to those already read.
pub open spec fn attributes(s: Seq<u8>, pos: int, n: nat, found: Map<Seq<char>, JsonScalarView>) -> Step<
    Map<Seq<char>, JsonScalarView>,
>
    decreases n,
{
    if n == 0 {
        (Ok(found), pos)
    } else {
        match attribute(s, pos) {
            (Err(e), p) => (Err(e), p),
            (Ok((k, v)), p) => attributes(s, p, (n - 1) as nat, found.insert(k, v)),
        }
    }
}

/// `n` arguments; they get the numbers from `next` on.
pub open spec fn v2_arguments(s: Seq<u8>, pos: int, n: nat, next: int, found: Map<usize, JsonScalarView>) -> Step<
    Map<usize, JsonScalarView>,
>
    decreases n,
{
    if n == 0 {
        (Ok(found), pos)
    } else if found.dom().len() >= MAX_ARGUMENTS {
        (Err(AdsErrorView::ParseError("Too many arguments"@)), pos)
    } else {
        match short_value(s, pos) {
            (Err(e), p) => (Err(e), p),
            (Ok(v), p) => v2_arguments(s, p, (n - 1) as nat, next + 1, found.insert(next as usize, v)),
        }
    }
}

/// `n` properties of one scope.
pub open spec fn v2_properties(
    s: Seq<u8>,
    pos: int,
    n: nat,
    scope: u8,
    found: Map<Seq<char>, JsonScalarView>,
) -> Step<Map<Seq<char>, JsonScalarView>>
    decreases n,
{
    if n == 0 {
        (Ok(found), pos)
    } else {
        match attribute(s, pos) {
            (Err(e), p) => (Err(e), p),
            (Ok((k, v)), p) => v2_properties(s, p, (n - 1) as nat, scope, found.insert(scope_key(scope, k), v)),
        }
    }
}

/// `n` scopes with their properties; `count` properties came before.
pub open spec fn v2_scopes(s: Seq<u8>, pos: int, n: nat, count: int, found: Map<Seq<char>, JsonScalarView>) -> Step<
    Map<Seq<char>, JsonScalarView>,
>
    decreases n,
{
    if n == 0 {
        (Ok(found), pos)
    } else if count >= MAX_CONTEXT_VARS {
        (Err(AdsErrorView::ParseError("Too many context variables"@)), pos)
    } else {
        match byte(s, pos) {
            (Err(e), p) => (Err(e), p),
            (Ok(scope), p) => match byte(s, p) {
                (Err(e), p) => (Err(e), p),
                (Ok(k), p) => match v2_properties(s, p, k as nat, scope, found) {
                    (Err(e), p) => (Err(e), p),
                    (Ok(more), p) => v2_scopes(s, p, (n - 1) as nat, count + k, more),
                },
            },
        }
    }
}

/// What the fixed part of an entry of the second format holds.
pub struct V2Head {
    pub length: u16,
    pub start: int,
    pub level: LogLevel,
    pub plc_timestamp: Timestamp,
    pub clock_timestamp: Timestamp,
    pub task_index: u8,
    pub cycle: u32,
    pub arguments: u8,
    pub scopes: u8,
}

/// The type byte and the length of an entry of the second format.
pub open spec fn v2_prefix(s: Seq<u8>, pos: int) -> Step<u16> {
    match byte(s, pos) {
        (Err(e), p) => (Err(e), p),
        (Ok(b), p) => if b != 2 {
            (Err(AdsErrorView::InvalidVersion(b)), p)
        } else {
            word(s, p)
        },
    }
}

/// Task index, cycle counter and two counts.
pub open spec fn task_counts(s: Seq<u8>, pos: int) -> Step<(u8, u32, u8, u8)> {
    match byte(s, pos) {
        (Err(e), p) => (Err(e), p),
        (Ok(task_index), p) => match dword(s, p) {
            (Err(e), p) => (Err(e), p),
            (Ok(cycle), p) => match byte(s, p) {
                (Err(e), p) => (Err(e), p),
                (Ok(a), p) => match byte(s, p) {
                    (Err(e), p) => (Err(e), p),
                    (Ok(b), p) => (Ok((task_index, cycle, a, b)), p),
                },
            },
        },
    }
}

/// The fixed part of an entry of the second format.
pub open spec fn v2_head(s: Seq<u8>, pos: int, now: Timestamp) -> Step<V2Head> {
    match v2_prefix(s, pos) {
        (Err(e), p) => (Err(e), p),
        (Ok(length), start) => match byte(s, start) {
            (Err(e), p) => (Err(e), p),
            (Ok(b), p) => match LogLevel::of(b) {
                None => (Err(AdsErrorView::ParseError("Invalid log level: "@ + dec(b as nat))), p),
                Some(level) => match two_times(s, p, now) {
                    (Err(e), p) => (Err(e), p),
                    (Ok((plc_timestamp, clock_timestamp)), p) => match task_counts(s, p) {
                        (Err(e), p) => (Err(e), p),
                        (Ok((task_index, cycle, arguments, scopes)), p) => (
                            Ok(
                                V2Head {
                                    length,
                                    start,
                                    level,
                                    plc_timestamp,
                                    clock_timestamp,
                                    task_index,
                                    cycle,
                                    arguments,
                                    scopes,
                                },
                            ),
                            p,
                        ),
                    },
                },
            },
        },
    }
}

/// Message, logger, arguments and context.
pub open spec fn v2_body(s: Seq<u8>, pos: int, arguments: u8, scopes: u8) -> Step<
    (Seq<char>, Seq<char>, Map<usize, JsonScalarView>, Map<Seq<char>, JsonScalarView>),
> {
    match string(s, pos) {
        (Err(e), p) => (Err(e), p),
        (Ok(message), p) => match string(s, p) {
            (Err(e), p) => (Err(e), p),
            (Ok(logger), p) => match v2_arguments(s, p, arguments as nat, 1, Map::empty()) {
                (Err(e), p) => (Err(e), p),
                (Ok(args), p) => match v2_scopes(s, p, scopes as nat, 0, Map::empty()) {
                    (Err(e), p) => (Err(e), p),
                    (Ok(context), p) => (Ok((message, logger, args, context)), p),
                },
            },
        },
    }
}

/// A log entry of the second format. Behind it, the cursor stands where the entry's length
/// says, whatever was read.
pub open spec fn v2_entry(s: Seq<u8>, pos: int, now: Timestamp) -> Step<AdsLogEntryView> {
    match v2_head(s, pos, now) {
        (Err(e), p) => (Err(e), p),
        (Ok(head), p) => match v2_body(s, p, head.arguments, head.scopes) {
            (Err(e), p) => (Err(e), p),
            (Ok((message, logger, arguments, context)), p) => (
                Ok(
                    AdsLogEntryView {
                        version: AdsProtocolVersion::V2,
                        message,
                        logger,
                        level: head.level,
                        plc_timestamp: head.plc_timestamp,
                        clock_timestamp: head.clock_timestamp,
                        task_index: head.task_index as i32,
                        task_name: Seq::empty(),
                        task_cycle_counter: head.cycle,
                        app_name: Seq::empty(),
                        project_name: Seq::empty(),
                        online_change_count: 0,
                        trace_id: zeros(16),
                        span_id: zeros(8),
                        arguments,
                        context,
                    },
                ),
                head.start + head.length,
            ),
        },
    }
}

// Registrations and spans.

/// A registration message.
pub open spec fn registration(s: Seq<u8>, pos: int) -> Step<RegistrationMessageView> {
    match byte(s, pos) {
        (Err(e), p) => (Err(e), p),
        (Ok(b), p) => if b != 3 {
            (Err(AdsErrorView::ParseError("Invalid registration type: "@ + dec(b as nat))), p)
        } else {
            match byte(s, p) {
                (Err(e), p) => (Err(e), p),
                (Ok(task_index), p) => match string(s, p) {
                    (Err(e), p) => (Err(e), p),
                    (Ok(task_name), p) => match app_names(s, p) {
                        (Err(e), p) => (Err(e), p),
                        (Ok((app_name, project_name, online_change_count)), p) => (
                            Ok(
                                RegistrationMessageView {
                                    task_index,
                                    task_name,
                                    app_name,
                                    project_name,
                                    online_change_count,
                                },
                            ),
                            p,
                        ),
                    },
                },
            }
        },
    }
}

/// The type byte and the length of a span.
pub open spec fn span_prefix(s: Seq<u8>, pos: int) -> Step<u16> {
    match byte(s, pos) {
        (Err(e), p) => (Err(e), p),
        (Ok(b), p) => if b != 5 {
            (Err(AdsErrorView::ParseError("Invalid span type: "@ + dec(b as nat))), p)
        } else {
            word(s, p)
        },
    }
}

/// Trace, span and parent identifiers.
pub open spec fn span_ids(s: Seq<u8>, pos: int) -> Step<(Seq<u8>, Seq<u8>, Seq<u8>)> {
    match bytes(s, pos, 16) {
        (Err(e), p) => (Err(e), p),
        (Ok(trace), p) => match bytes(s, p, 8) {
            (Err(e), p) => (Err(e), p),
            (Ok(span), p) => match bytes(s, p, 8) {
                (Err(e), p) => (Err(e), p),
                (Ok(parent), p) => (Ok((trace, span, parent)), p),
            },
        },
    }
}

/// Kind and status.
pub open spec fn span_kinds(s: Seq<u8>, pos: int) -> Step<(SpanKind, SpanStatusCode)> {
    match byte(s, pos) {
        (Err(e), p) => (Err(e), p),
        (Ok(b), p) => match SpanKind::of(b) {
            None => (Err(AdsErrorView::ParseError("Invalid span kind: "@ + dec(b as nat))), p),
            Some(kind) => match byte(s, p) {
                (Err(e), p) => (Err(e), p),
                (Ok(b), p) => match SpanStatusCode::of(b) {
                    None => (Err(AdsErrorView::ParseError("Invalid span status code: "@ + dec(b as nat))), p),
                    Some(status) => (Ok((kind, status)), p),
                },
            },
        },
    }
}

/// Task index, cycle counter, and the numbers of events and attributes, within their limits.
pub open spec fn span_counts(s: Seq<u8>, pos: int) -> Step<(u8, u32, u8, u8)> {
    match task_counts(s, pos) {
        (Err(e), p) => (Err(e), p),
        (Ok((task_index, cycle, events, attrs)), p) => if events > MAX_SPAN_EVENTS {
            (
                Err(
                    AdsErrorView::ParseError(
                        "Too many span events: "@ + dec(events as nat) + " exceeds maximum 128"@,
                    ),
                ),
                p,
            )
        } else if attrs > MAX_SPAN_ATTRIBUTES {
            (
                Err(
                    AdsErrorView::ParseError(
                        "Too many span attributes: "@ + dec(attrs as nat) + " exceeds maximum 64"@,
                    ),
                ),
                p,
            )
        } else {
            (Ok((task_index, cycle, events, attrs)), p)
        },
    }
}

/// An event of a span.
pub open spec fn span_event(s: Seq<u8>, pos: int, now: Timestamp) -> Step<AdsSpanEventView> {
    match string(s, pos) {
        (Err(e), p) => (Err(e), p),
        (Ok(name), p) => match time(s, p, now) {
            (Err(e), p) => (Err(e), p),
            (Ok(timestamp), p) => match byte(s, p) {
                (Err(e), p) => (Err(e), p),
                (Ok(n), p) => if n > MAX_SPAN_ATTRIBUTES {
                    (
                        Err(
                            AdsErrorView::ParseError(
                                "Too many event attributes: "@ + dec(n as nat) + " exceeds maximum 64"@,
                            ),
                        ),
                        p,
                    )
                } else {
                    match attributes(s, p, n as nat, Map::empty()) {
                        (Err(e), p) => (Err(e), p),
                        (Ok(found), p) => (Ok(AdsSpanEventView { timestamp, name, attributes: found }), p),
                    }
                },
            },
        },
    }
}

/// `n` events, after those already read.
pub open spec fn span_events(s: Seq<u8>, pos: int, n: nat, now: Timestamp, found: Seq<AdsSpanEventView>) -> Step<
    Seq<AdsSpanEventView>,
>
    decreases n,
{
    if n == 0 {
        (Ok(found), pos)
    } else {
        match span_event(s, pos, now) {
            (Err(e), p) => (Err(e), p),
            (Ok(event), p) => span_events(s, p, (n - 1) as nat, now, found.push(event)),
        }
    }
}

/// Name, status message, events and attributes.
pub open spec fn span_body(s: Seq<u8>, pos: int, events: u8, attrs: u8, now: Timestamp) -> Step<
    (Seq<char>, Seq<char>, Seq<AdsSpanEventView>, Map<Seq<char>, JsonScalarView>),
> {
    match string(s, pos) {
        (Err(e), p) => (Err(e), p),
        (Ok(name), p) => match string(s, p) {
            (Err(e), p) => (Err(e), p),
            (Ok(status_message), p) => match span_events(s, p, events as nat, now, Seq::empty()) {
                (Err(e), p) => (Err(e), p),
                (Ok(found), p) => match attributes(s, p, attrs as nat, Map::empty()) {
                    (Err(e), p) => (Err(e), p),
                    (Ok(more), p) => (Ok((name, status_message, found, more)), p),
                },
            },
        },
    }
}

/// A completed span. Behind it, the cursor stands where the span's length says.
pub open spec fn span_entry(s: Seq<u8>, pos: int, now: Timestamp) -> Step<AdsSpanEntryView> {
    match span_prefix(s, pos) {
        (Err(e), p) => (Err(e), p),
        (Ok(length), start) => match span_ids(s, start) {
            (Err(e), p) => (Err(e), p),
            (Ok((trace_id, span_id, parent_span_id)), p) => match span_kinds(s, p) {
                (Err(e), p) => (Err(e), p),
                (Ok((kind, status_code)), p) => match two_times(s, p, now) {
                    (Err(e), p) => (Err(e), p),
                    (Ok((start_time, end_time)), p) => match span_counts(s, p) {
                        (Err(e), p) => (Err(e), p),
                        (Ok((task_index, cycle, events, attrs)), p) => match span_body(s, p, events, attrs, now) {
                            (Err(e), p) => (Err(e), p),
                            (Ok((name, status_message, found, more)), p) => (
                                Ok(
                                    AdsSpanEntryView {
                                        trace_id,
                                        span_id,
                                        parent_span_id,
                                        name,
                                        kind,
                                        status_code,
                                        status_message,
                                        start_time,
                                        end_time,
                                        task_index: task_index as i32,
                                        task_cycle_counter: cycle,
                                        attributes: more,
                                        events: found,
                                    },
                                ),
                                start + length,
                            ),
                        },
                    },
                },
            },
        },
    }
}

// Buffers.

/// What was found in a buffer.
#[derive(Debug)]
pub struct ParseResult {
    pub entries: Vec<AdsLogEntry>,
    pub registrations: Vec<RegistrationMessage>,
    pub spans: Vec<AdsSpanEntry>,
    pub metrics: Vec<AdsMetricEntry>,
    pub trace_events: Vec<TraceWireEvent>,
}

pub struct ParseResultView {
    pub entries: Seq<AdsLogEntryView>,
    pub registrations: Seq<RegistrationMessageView>,
    pub spans: Seq<AdsSpanEntryView>,
    pub metrics: Seq<AdsMetricEntryView>,
    pub trace_events: Seq<TraceWireEvent>,
}

impl View for ParseResult {
    type V = ParseResultView;

    open spec fn view(&self) -> ParseResultView {
        ParseResultView {
            entries: self.entries@.map_values(|e: AdsLogEntry| e@),
            registrations: self.registrations@.map_values(|e: RegistrationMessage| e@),
            spans: self.spans@.map_values(|e: AdsSpanEntry| e@),
            metrics: self.metrics@.map_values(|e: AdsMetricEntry| e@),
            trace_events: self.trace_events@,
        }
    }
}

impl ParseResultView {
    pub open spec fn nothing() -> ParseResultView {
        ParseResultView {
            entries: Seq::empty(),
            registrations: Seq::empty(),
            spans: Seq::empty(),
            metrics: Seq::empty(),
            trace_events: Seq::empty(),
        }
    }

    pub open spec fn with_entry(self, e: AdsLogEntryView) -> ParseResultView {
        ParseResultView { entries: self.entries.push(e), ..self }
    }

    pub open spec fn with_registration(self, e: RegistrationMessageView) -> ParseResultView {
        ParseResultView { registrations: self.registrations.push(e), ..self }
    }

    pub open spec fn with_span(self, e: AdsSpanEntryView) -> ParseResultView {
        ParseResultView { spans: self.spans.push(e), ..self }
    }

    /// No log entry and no registration was found.
    pub open spec fn no_logs(self) -> bool {
        self.entries.len() == 0 && self.registrations.len() == 0
    }
}

/// Every message that is read takes at least one byte.
pub proof fn lemma_messages_forward(s: Seq<u8>, pos: int, now: Timestamp)
    requires
        0 <= pos < s.len(),
    ensures
        v1_entry(s, pos, now).0 is Ok ==> v1_entry(s, pos, now).1 > pos,
        v2_entry(s, pos, now).1 > pos,
        v2_entry(s, pos, now).0 is Err ==> v2_entry(s, pos, now).1 <= s.len(),
        registration(s, pos).0 is Ok ==> registration(s, pos).1 > pos,
        span_entry(s, pos, now).0 is Ok ==> span_entry(s, pos, now).1 > pos,
{
    assert(v1_entry(s, pos, now).0 is Ok ==> v1_entry(s, pos, now).1 > pos) by {
        lemma_v1_head_forward(s, pos, now);
        lemma_v1_items_forward(s, v1_head(s, pos, now).1, (Map::empty(), Map::empty()));
    }
    assert(v2_entry(s, pos, now).1 > pos && (v2_entry(s, pos, now).0 is Err ==> v2_entry(s, pos, now).1 <= s.len())) by {
        lemma_v2_head_forward(s, pos, now);
        if let Ok(head) = v2_head(s, pos, now).0 {
            lemma_v2_body_forward(s, v2_head(s, pos, now).1, head.arguments, head.scopes);
        }
    }
    lemma_registration_forward(s, pos);
    lemma_span_forward(s, pos, now);
}

proof fn lemma_v1_head_forward(s: Seq<u8>, pos: int, now: Timestamp)
    requires
        0 <= pos < s.len(),
    ensures
        v1_head(s, pos, now).0 is Ok ==> v1_head(s, pos, now).1 > pos,
{
    let p = v1_names(s, pos).1;
    let q = two_times(s, p, now).1;
    let r = v1_task(s, q).1;
    assert(v1_names(s, pos).0 is Ok ==> p > pos);
    assert(two_times(s, p, now).0 is Ok ==> q >= p);
    assert(v1_task(s, q).0 is Ok ==> r >= q);
    assert(app_names(s, r).0 is Ok ==> app_names(s, r).1 >= r);
}

proof fn lemma_v2_head_forward(s: Seq<u8>, pos: int, now: Timestamp)
    requires
        0 <= pos < s.len(),
    ensures
        pos < v2_head(s, pos, now).1 <= s.len(),
        v2_head(s, pos, now).0 matches Ok(head) ==> head.start > pos,
{
    let start = v2_prefix(s, pos).1;
    assert(pos < start <= s.len());
    let p = byte(s, start).1;
    let q = two_times(s, p, now).1;
    assert(p <= s.len() ==> p <= q <= s.len());
    assert(q <= s.len() ==> q <= task_counts(s, q).1 <= s.len());
}

proof fn lemma_v2_body_forward(s: Seq<u8>, pos: int, arguments: u8, scopes: u8)
    requires
        0 <= pos <= s.len(),
    ensures
        pos <= v2_body(s, pos, arguments, scopes).1 <= s.len(),
{
    let p = string(s, pos).1;
    let q = string(s, p).1;
    lemma_v2_arguments_forward(s, q, arguments as nat, 1, Map::empty());
    let r = v2_arguments(s, q, arguments as nat, 1, Map::empty()).1;
    lemma_v2_scopes_forward(s, r, scopes as nat, 0, Map::empty());
}

proof fn lemma_registration_forward(s: Seq<u8>, pos: int)
    requires
        0 <= pos < s.len(),
    ensures
        registration(s, pos).0 is Ok ==> registration(s, pos).1 > pos,
{
    let q = string(s, pos + 2).1;
    assert(string(s, pos + 2).0 is Ok ==> q > pos);
    assert(app_names(s, q).0 is Ok ==> app_names(s, q).1 >= q);
}

proof fn lemma_span_forward(s: Seq<u8>, pos: int, now: Timestamp)
    requires
        0 <= pos < s.len(),
    ensures
        span_entry(s, pos, now).0 is Ok ==> span_entry(s, pos, now).1 > pos,
{
    let start = span_prefix(s, pos).1;
    assert(span_prefix(s, pos).0 is Ok ==> start > pos);
}

proof fn lemma_v1_items_forward(s: Seq<u8>, pos: int, items: Items)
    ensures
        v1_items(s, pos, items).1 >= pos,
    decreases s.len() - pos,
{
    if 0 <= pos < s.len() {
        lemma_v1_item_forward(s, pos + 1);
        if s[pos] == 1 {
            if let (Ok((k, v)), p) = v1_argument(s, pos + 1) {
                lemma_v1_items_forward(s, p, (items.0.insert(k, v), items.1));
            }
        } else if s[pos] == 2 {
            if let (Ok((k, v)), p) = v1_property(s, pos + 1) {
                lemma_v1_items_forward(s, p, (items.0, items.1.insert(k, v)));
            }
        } else if s[pos] != 0 && s[pos] != 255 {
            lemma_v1_items_forward(s, pos + 1, items);
        }
    }
}

proof fn lemma_v2_properties_forward(
    s: Seq<u8>,
    pos: int,
    n: nat,
    scope: u8,
    found: Map<Seq<char>, JsonScalarView>,
)
    requires
        0 <= pos <= s.len(),
    ensures
        pos <= v2_properties(s, pos, n, scope, found).1 <= s.len(),
    decreases n,
{
    if n > 0 {
        if let (Ok((k, v)), p) = attribute(s, pos) {
            lemma_v2_properties_forward(s, p, (n - 1) as nat, scope, found.insert(scope_key(scope, k), v));
        }
    }
}

proof fn lemma_v2_arguments_forward(s: Seq<u8>, pos: int, n: nat, next: int, args: Map<usize, JsonScalarView>)
    requires
        0 <= pos <= s.len(),
    ensures
        pos <= v2_arguments(s, pos, n, next, args).1 <= s.len(),
    decreases n,
{
    if n > 0 {
        if let (Ok(v), p) = short_value(s, pos) {
            lemma_v2_arguments_forward(s, p, (n - 1) as nat, next + 1, args.insert(next as usize, v));
        }
    }
}

proof fn lemma_v2_scopes_forward(s: Seq<u8>, pos: int, n: nat, count: int, found: Map<Seq<char>, JsonScalarView>)
    requires
        0 <= pos <= s.len(),
    ensures
        pos <= v2_scopes(s, pos, n, count, found).1 <= s.len(),
    decreases n,
{
    if n > 0 {
        if let (Ok(scope), p) = byte(s, pos) {
            if let (Ok(k), p) = byte(s, p) {
                lemma_v2_properties_forward(s, p, k as nat, scope, found);
                if let (Ok(more), q) = v2_properties(s, p, k as nat, scope, found) {
                    lemma_v2_scopes_forward(s, q, (n - 1) as nat, count + k, more);
                }
            }
        }
    }
}

/// The messages from `pos` on, added to those already found.
///
/// Padding (0 or 0xFF), the end of the buffer and an unknown type end the buffer, and so does
/// a message that cannot be read once something was found before it. With nothing before it,
/// a broken entry of the first format or a broken span is the buffer's error; a broken entry
/// of the second format is skipped by the length that stands where its reading stopped.
pub open spec fn messages(s: Seq<u8>, pos: int, now: Timestamp, found: ParseResultView) -> Result<
    ParseResultView,
    AdsErrorView,
>
    decreases left(s, pos),
{
    if pos < 0 || pos >= s.len() {
        Ok(found)
    } else {
        proof {
            lemma_messages_forward(s, pos, now);
        }
        if s[pos] == 1 {
            match v1_entry(s, pos, now) {
                (Ok(e), p) => messages(s, p, now, found.with_entry(e)),
                (Err(e), _) => if found.no_logs() { Err(e) } else { Ok(found) },
            }
        } else if s[pos] == 2 {
            match v2_entry(s, pos, now) {
                (Ok(e), p) => messages(s, p, now, found.with_entry(e)),
                (Err(_), p) => if found.no_logs() && left(s, p) >= 3 {
                    messages(s, p + crate::wire::u16_at(s, p + 1) + 3, now, found)
                } else {
                    Ok(found)
                },
            }
        } else if s[pos] == 3 {
            match registration(s, pos) {
                (Ok(e), p) => messages(s, p, now, found.with_registration(e)),
                (Err(_), _) => Ok(found),
            }
        } else if s[pos] == 5 {
            match span_entry(s, pos, now) {
                (Ok(e), p) => messages(s, p, now, found.with_span(e)),
                (Err(e), _) => if found.no_logs() && found.spans.len() == 0 { Err(e) } else { Ok(found) },
            }
        } else {
            Ok(found)
        }
    }
}

/// What parsing one log entry of the first format gives.
pub open spec fn entry_outcome(s: Seq<u8>, now: Timestamp) -> Result<AdsLogEntryView, AdsErrorView> {
    if s.len() > MAX_MESSAGE_SIZE {
        Err(oversize(s.len()))
    } else {
        v1_entry(s, 0, now).0
    }
}

/// What parsing the whole of `s` gives.
pub open spec fn parse_outcome(s: Seq<u8>, now: Timestamp) -> Result<ParseResultView, AdsErrorView> {
    if s.len() > MAX_MESSAGE_SIZE {
        Err(oversize(s.len()))
    } else {
        messages(s, 0, now, ParseResultView::nothing())
    }
}

fn scope_name(scope: u8, name: &str) -> (r: String)
    ensures
        r@ == scope_key(scope, name@),
{
    let mut r = with_number("scope_", scope as u64, "_");
    r.append(name);
    r
}

pub struct AdsParser;

impl AdsParser {
    fn read_v1_argument(reader: &mut BytesReader) -> (r: Result<(usize, JsonScalar), AdsError>)
        ensures
            took(*old(reader), *final(reader), r, v1_argument(old(reader).data@, old(reader).pos as int)),
    {
        let index: u8 = reader.read_u8()?;
        let value = reader.read_value()?;
        Ok((index as usize, value))
    }

    fn read_v1_property(reader: &mut BytesReader) -> (r: Result<(String, JsonScalar), AdsError>)
        ensures
            took(*old(reader), *final(reader), r, v1_property(old(reader).data@, old(reader).pos as int)),
    {
        let scope: u8 = reader.read_u8()?;
        let name = reader.read_string()?;
        let value = reader.read_value()?;
        Ok((scope_name(scope, &name), value))
    }

    fn read_v1_items(reader: &mut BytesReader) -> (r: Result<
        (KeyMap<usize, JsonScalar>, KeyMap<String, JsonScalar>),
        AdsError,
    >)
        ensures
            took(
                *old(reader),
                *final(reader),
                r,
                v1_items(old(reader).data@, old(reader).pos as int, (Map::empty(), Map::empty())),
            ),
    {
        let mut arguments: KeyMap<usize, JsonScalar> = KeyMap::new();
        let mut context: KeyMap<String, JsonScalar> = KeyMap::new();
        let ghost s = reader.data@;
        let ghost all = v1_items(s, reader.pos as int, (Map::empty(), Map::empty()));
        while reader.remaining() > 0
            invariant_except_break
                v1_items(s, reader.pos as int, (arguments@, context@)) == all,
            invariant
                arguments@.dom().finite() && arguments@.dom().len() <= MAX_ARGUMENTS,
                context@.dom().finite() && context@.dom().len() <= MAX_CONTEXT_VARS,
                reader.data == old(reader).data,
                s == old(reader).data@,
                all == v1_items(s, old(reader).pos as int, (Map::empty(), Map::empty())),
            ensures
                all == (Ok::<Items, AdsErrorView>((arguments@, context@)), reader.pos as int),
            decreases s.len() - reader.pos,
        {
            proof {
                lemma_v1_item_forward(s, reader.pos + 1);
            }
            let type_id: u8 = reader.read_u8()?;
            if type_id == 0 || type_id == 255 {
                break;
            }
            if type_id == 1 {
                if arguments.len() >= MAX_ARGUMENTS {
                    return Err(
                        AdsError::ParseError(
                            with_number(
                                "Too many arguments: ",
                                arguments.len() as u64 + 1,
                                " exceeds maximum 32",
                            ),
                        ),
                    );
                }
                let (index, value) = Self::read_v1_argument(reader)?;
                arguments.insert(index, value);
            } else if type_id == 2 {
                if context.len() >= MAX_CONTEXT_VARS {
                    return Err(
                        AdsError::ParseError(
                            with_number(
                                "Too many context variables: ",
                                context.len() as u64 + 1,
                                " exceeds maximum 64",
                            ),
                        ),
                    );
                }
                let (name, value) = Self::read_v1_property(reader)?;
                context.insert(name, value);
            }
        }
        Ok((arguments, context))
    }

    fn parse_v1_from_reader(reader: &mut BytesReader, now: Timestamp) -> (r: Result<AdsLogEntry, AdsError>)
        ensures
            took(*old(reader), *final(reader), r, v1_entry(old(reader).data@, old(reader).pos as int, now)),
    {
        let version_byte: u8 = reader.read_u8()?;
        let version = match AdsProtocolVersion::from_u8(version_byte) {
            Some(v) => v,
            None => return Err(AdsError::InvalidVersion(version_byte)),
        };
        let message = reader.read_string()?;
        let logger = reader.read_string()?;
        let level_word: u16 = reader.read_u16()?;
        let level = match LogLevel::from_u8((level_word % 256) as u8) {
            Some(v) => v,
            None => return Err(AdsError::ParseError(numbered("Invalid log level: ", level_word as u64))),
        };
        let plc_timestamp = reader.read_filetime(now)?;
        let clock_timestamp = reader.read_filetime(now)?;
        let task_index: i32 = reader.read_i32()?;
        let task_name = reader.read_string()?;
        let task_cycle_counter: u32 = reader.read_u32()?;
        let app_name = reader.read_string()?;
        let project_name = reader.read_string()?;
        let online_change_count: u32 = reader.read_u32()?;
        let (arguments, context) = Self::read_v1_items(reader)?;
        let trace_id: [u8; 16] = [0; 16];
        let span_id: [u8; 8] = [0; 8];
        assert(trace_id@ =~= zeros(16));
        assert(span_id@ =~= zeros(8));
        Ok(
            AdsLogEntry {
                version,
                message,
                logger,
                level,
                plc_timestamp,
                clock_timestamp,
                task_index,
                task_name,
                task_cycle_counter,
                app_name,
                project_name,
                online_change_count,
                trace_id,
                span_id,
                arguments,
                context,
            },
        )
    }

    fn read_short_value(reader: &mut BytesReader) -> (r: Result<JsonScalar, AdsError>)
        ensures
            took(*old(reader), *final(reader), r, short_value(old(reader).data@, old(reader).pos as int)),
    {
        let kind: u8 = reader.read_u8()?;
        reader.read_value_with_type(remap_v2_type_id(kind as i32))
    }

    fn read_attribute(reader: &mut BytesReader) -> (r: Result<(String, JsonScalar), AdsError>)
        ensures
            took(*old(reader), *final(reader), r, attribute(old(reader).data@, old(reader).pos as int)),
    {
        let name = reader.read_string()?;
        let value = Self::read_short_value(reader)?;
        Ok((name, value))
    }

    fn read_attributes(reader: &mut BytesReader, n: u8) -> (r: Result<KeyMap<String, JsonScalar>, AdsError>)
        ensures
            took(
                *old(reader),
                *final(reader),
                r,
                attributes(old(reader).data@, old(reader).pos as int, n as nat, Map::empty()),
            ),
    {
        let mut found: KeyMap<String, JsonScalar> = KeyMap::new();
        let ghost s = reader.data@;
        let ghost all = attributes(s, reader.pos as int, n as nat, Map::empty());
        let mut i: u8 = 0;
        while i < n
            invariant
                i <= n,
                reader.data == old(reader).data,
                s == old(reader).data@,
                all == attributes(s, old(reader).pos as int, n as nat, Map::empty()),
                attributes(s, reader.pos as int, (n - i) as nat, found@) == all,
            decreases n - i,
        {
            let (key, value) = Self::read_attribute(reader)?;
            found.insert(key, value);
            i = i + 1;
        }
        Ok(found)
    }

    fn read_v2_arguments(reader: &mut BytesReader, n: u8) -> (r: Result<KeyMap<usize, JsonScalar>, AdsError>)
        ensures
            took(
                *old(reader),
                *final(reader),
                r,
                v2_arguments(old(reader).data@, old(reader).pos as int, n as nat, 1, Map::empty()),
            ),
    {
        let mut found: KeyMap<usize, JsonScalar> = KeyMap::new();
        let ghost s = reader.data@;
        let ghost all = v2_arguments(s, reader.pos as int, n as nat, 1, Map::empty());
        let mut i: u8 = 0;
        while i < n
            invariant
                i <= n,
                reader.data == old(reader).data,
                s == old(reader).data@,
                all == v2_arguments(s, old(reader).pos as int, n as nat, 1, Map::empty()),
                v2_arguments(s, reader.pos as int, (n - i) as nat, i + 1, found@) == all,
            decreases n - i,
        {
            if found.len() >= MAX_ARGUMENTS {
                return Err(AdsError::ParseError(String::from_str("Too many arguments")));
            }
            let value = Self::read_short_value(reader)?;
            found.insert(i as usize + 1, value);
            i = i + 1;
        }
        Ok(found)
    }

    fn read_v2_properties(reader: &mut BytesReader, n: u8, scope: u8, found: &mut KeyMap<String, JsonScalar>) -> (r: Result<
        (),
        AdsError,
    >)
        ensures
            ({
                let (res, p) = v2_properties(
                    old(reader).data@,
                    old(reader).pos as int,
                    n as nat,
                    scope,
                    old(found)@,
                );
                &&& final(reader).pos == p
                &&& final(reader).data == old(reader).data
                &&& match r {
                    Ok(_) => res == Ok::<Map<Seq<char>, JsonScalarView>, AdsErrorView>(final(found)@),
                    Err(e) => res == Err::<Map<Seq<char>, JsonScalarView>, AdsErrorView>(e@),
                }
            }),
    {
        let ghost s = reader.data@;
        let ghost all = v2_properties(s, reader.pos as int, n as nat, scope, found@);
        let mut i: u8 = 0;
        while i < n
            invariant
                i <= n,
                reader.data == old(reader).data,
                s == old(reader).data@,
                all == v2_properties(s, old(reader).pos as int, n as nat, scope, old(found)@),
                v2_properties(s, reader.pos as int, (n - i) as nat, scope, found@) == all,
            decreases n - i,
        {
            let (name, value) = Self::read_attribute(reader)?;
            found.insert(scope_name(scope, &name), value);
            i = i + 1;
        }
        Ok(())
    }

    fn read_v2_scopes(reader: &mut BytesReader, n: u8) -> (r: Result<KeyMap<String, JsonScalar>, AdsError>)
        ensures
            took(
                *old(reader),
                *final(reader),
                r,
                v2_scopes(old(reader).data@, old(reader).pos as int, n as nat, 0, Map::empty()),
            ),
    {
        let mut found: KeyMap<String, JsonScalar> = KeyMap::new();
        let ghost s = reader.data@;
        let ghost all = v2_scopes(s, reader.pos as int, n as nat, 0, Map::empty());
        let mut i: u8 = 0;
        let mut count: usize = 0;
        while i < n
            invariant
                i <= n,
                count <= i * 255,
                reader.data == old(reader).data,
                s == old(reader).data@,
                all == v2_scopes(s, old(reader).pos as int, n as nat, 0, Map::empty()),
                v2_scopes(s, reader.pos as int, (n - i) as nat, count as int, found@) == all,
            decreases n - i,
        {
            if count >= MAX_CONTEXT_VARS {
                return Err(AdsError::ParseError(String::from_str("Too many context variables")));
            }
            let scope: u8 = reader.read_u8()?;
            let k: u8 = reader.read_u8()?;
            Self::read_v2_properties(reader, k, scope, &mut found)?;
            count = count + k as usize;
            i = i + 1;
        }
        Ok(found)
    }

    fn parse_v2_from_reader(reader: &mut BytesReader, now: Timestamp) -> (r: Result<AdsLogEntry, AdsError>)
        requires
            old(reader).data@.len() <= MAX_MESSAGE_SIZE,
        ensures
            took(*old(reader), *final(reader), r, v2_entry(old(reader).data@, old(reader).pos as int, now)),
    {
        let version_byte: u8 = reader.read_u8()?;
        if version_byte != 2 {
            return Err(AdsError::InvalidVersion(version_byte));
        }
        let entry_length: u16 = reader.read_u16()?;
        let entry_start: usize = reader.pos;
        let level_byte: u8 = reader.read_u8()?;
        let level = match LogLevel::from_u8(level_byte) {
            Some(v) => v,
            None => return Err(AdsError::ParseError(numbered("Invalid log level: ", level_byte as u64))),
        };
        let plc_timestamp = reader.read_filetime(now)?;
        let clock_timestamp = reader.read_filetime(now)?;
        let task_index: u8 = reader.read_u8()?;
        let task_cycle_counter: u32 = reader.read_u32()?;
        let arg_count: u8 = reader.read_u8()?;
        let context_count: u8 = reader.read_u8()?;
        let message = reader.read_string()?;
        let logger = reader.read_string()?;
        let arguments = Self::read_v2_arguments(reader, arg_count)?;
        let context = Self::read_v2_scopes(reader, context_count)?;
        reader.pos = entry_start + entry_length as usize;
        let trace_id: [u8; 16] = [0; 16];
        let span_id: [u8; 8] = [0; 8];
        assert(trace_id@ =~= zeros(16));
        assert(span_id@ =~= zeros(8));
        Ok(
            AdsLogEntry {
                version: AdsProtocolVersion::V2,
                message,
                logger,
                level,
                plc_timestamp,
                clock_timestamp,
                task_index: task_index as i32,
                task_name: String::new(),
                task_cycle_counter,
                app_name: String::new(),
                project_name: String::new(),
                online_change_count: 0,
                trace_id,
                span_id,
                arguments,
                context,
            },
        )
    }

    fn parse_registration_from_reader(reader: &mut BytesReader) -> (r: Result<RegistrationMessage, AdsError>)
        ensures
            took(*old(reader), *final(reader), r, registration(old(reader).data@, old(reader).pos as int)),
    {
        let type_byte: u8 = reader.read_u8()?;
        if type_byte != 3 {
            return Err(AdsError::ParseError(numbered("Invalid registration type: ", type_byte as u64)));
        }
        let task_index: u8 = reader.read_u8()?;
        let task_name = reader.read_string()?;
        let app_name = reader.read_string()?;
        let project_name = reader.read_string()?;
        let online_change_count: u32 = reader.read_u32()?;
        Ok(RegistrationMessage { task_index, task_name, app_name, project_name, online_change_count })
    }

    fn read_span_event(reader: &mut BytesReader, now: Timestamp) -> (r: Result<AdsSpanEvent, AdsError>)
        ensures
            took(*old(reader), *final(reader), r, span_event(old(reader).data@, old(reader).pos as int, now)),
    {
        let name = reader.read_string()?;
        let timestamp = reader.read_filetime(now)?;
        let n: u8 = reader.read_u8()?;
        if n as usize > MAX_SPAN_ATTRIBUTES {
            return Err(
                AdsError::ParseError(
                    with_number("Too many event attributes: ", n as u64, " exceeds maximum 64"),
                ),
            );
        }
        let attributes = Self::read_attributes(reader, n)?;
        Ok(AdsSpanEvent { timestamp, name, attributes })
    }

    fn read_span_events(reader: &mut BytesReader, n: u8, now: Timestamp) -> (r: Result<Vec<AdsSpanEvent>, AdsError>)
        ensures
            ({
                let (res, p) = span_events(
                    old(reader).data@,
                    old(reader).pos as int,
                    n as nat,
                    now,
                    Seq::empty(),
                );
                &&& final(reader).pos == p
                &&& final(reader).data == old(reader).data
                &&& match r {
                    Ok(v) => res == Ok::<Seq<AdsSpanEventView>, AdsErrorView>(
                        v@.map_values(|e: AdsSpanEvent| e@),
                    ),
                    Err(e) => res == Err::<Seq<AdsSpanEventView>, AdsErrorView>(e@),
                }
            }),
    {
        let mut found: Vec<AdsSpanEvent> = Vec::new();
        let ghost s = reader.data@;
        let ghost all = span_events(s, reader.pos as int, n as nat, now, Seq::empty());
        let mut i: u8 = 0;
        assert(found@.map_values(|e: AdsSpanEvent| e@) =~= Seq::empty());
        while i < n
            invariant
                i <= n,
                reader.data == old(reader).data,
                s == old(reader).data@,
                all == span_events(s, old(reader).pos as int, n as nat, now, Seq::empty()),
                span_events(
                    s,
                    reader.pos as int,
                    (n - i) as nat,
                    now,
                    found@.map_values(|e: AdsSpanEvent| e@),
                ) == all,
            decreases n - i,
        {
            let ghost before = found@.map_values(|e: AdsSpanEvent| e@);
            let event = Self::read_span_event(reader, now)?;
            let ghost view = event@;
            found.push(event);
            assert(found@.map_values(|e: AdsSpanEvent| e@) =~= before.push(view));
            i = i + 1;
        }
        Ok(found)
    }

    fn parse_span_from_reader(reader: &mut BytesReader, now: Timestamp) -> (r: Result<AdsSpanEntry, AdsError>)
        requires
            old(reader).data@.len() <= MAX_MESSAGE_SIZE,
        ensures
            took(*old(reader), *final(reader), r, span_entry(old(reader).data@, old(reader).pos as int, now)),
    {
        let type_byte: u8 = reader.read_u8()?;
        if type_byte != 5 {
            return Err(AdsError::ParseError(numbered("Invalid span type: ", type_byte as u64)));
        }
        let entry_length: u16 = reader.read_u16()?;
        let entry_start: usize = reader.pos;
        let trace_id = get_array16(reader.read_bytes(16)?, 0);
        let span_id = get_array8(reader.read_bytes(8)?, 0);
        let parent_span_id = get_array8(reader.read_bytes(8)?, 0);
        let ghost ids = span_ids(reader.data@, entry_start as int);
        assert(ids == (Ok::<(Seq<u8>, Seq<u8>, Seq<u8>), AdsErrorView>((trace_id@, span_id@, parent_span_id@)), reader.pos as int)) by {
            let s = reader.data@;
            let p = entry_start as int;
            assert(s.subrange(p, p + 16).subrange(0, 16) =~= s.subrange(p, p + 16));
            assert(s.subrange(p + 16, p + 24).subrange(0, 8) =~= s.subrange(p + 16, p + 24));
            assert(s.subrange(p + 24, p + 32).subrange(0, 8) =~= s.subrange(p + 24, p + 32));
        }
        let kind_byte: u8 = reader.read_u8()?;
        let kind = match SpanKind::from_u8(kind_byte) {
            Some(v) => v,
            None => return Err(AdsError::ParseError(numbered("Invalid span kind: ", kind_byte as u64))),
        };
        let status_byte: u8 = reader.read_u8()?;
        let status_code = match SpanStatusCode::from_u8(status_byte) {
            Some(v) => v,
            None => return Err(AdsError::ParseError(numbered("Invalid span status code: ", status_byte as u64))),
        };
        let start_time = reader.read_filetime(now)?;
        let end_time = reader.read_filetime(now)?;
        let task_index: u8 = reader.read_u8()?;
        let task_cycle_counter: u32 = reader.read_u32()?;
        let event_count: u8 = reader.read_u8()?;
        let attr_count: u8 = reader.read_u8()?;
        if event_count as usize > MAX_SPAN_EVENTS {
            return Err(
                AdsError::ParseError(
                    with_number("Too many span events: ", event_count as u64, " exceeds maximum 128"),
                ),
            );
        }
        if attr_count as usize > MAX_SPAN_ATTRIBUTES {
            return Err(
                AdsError::ParseError(
                    with_number("Too many span attributes: ", attr_count as u64, " exceeds maximum 64"),
                ),
            );
        }
        let name = reader.read_string()?;
        let status_message = reader.read_string()?;
        let events = Self::read_span_events(reader, event_count, now)?;
        let attributes = Self::read_attributes(reader, attr_count)?;
        reader.pos = entry_start + entry_length as usize;
        Ok(
            AdsSpanEntry {
                trace_id,
                span_id,
                parent_span_id,
                name,
                kind,
                status_code,
                status_message,
                start_time,
                end_time,
                task_index: task_index as i32,
                task_cycle_counter,
                attributes,
                events,
            },
        )
    }

    /// Parses all messages of a buffer, with `now` for times that are not set.
    pub fn parse_all_at(data: &[u8], now: Timestamp) -> (r: Result<ParseResult, AdsError>)
        ensures
            outcome(r) == parse_outcome(data@, now),
    {
        if data.len() > MAX_MESSAGE_SIZE {
            return Err(
                AdsError::ParseError(with_number("Message size ", data.len() as u64, " exceeds maximum 1048576")),
            );
        }
        let mut entries: Vec<AdsLogEntry> = Vec::new();
        let mut registrations: Vec<RegistrationMessage> = Vec::new();
        let mut spans: Vec<AdsSpanEntry> = Vec::new();
        let metrics: Vec<AdsMetricEntry> = Vec::new();
        let trace_events: Vec<TraceWireEvent> = Vec::new();
        let mut reader = BytesReader::new(data);
        let ghost s = data@;
        let ghost mut found = ParseResultView::nothing();
        assert(entries@.map_values(|e: AdsLogEntry| e@) =~= Seq::empty());
        assert(registrations@.map_values(|e: RegistrationMessage| e@) =~= Seq::empty());
        assert(spans@.map_values(|e: AdsSpanEntry| e@) =~= Seq::empty());
        assert(metrics@.map_values(|e: AdsMetricEntry| e@) =~= Seq::empty());
        while reader.remaining() > 0
            invariant_except_break
                messages(s, reader.pos as int, now, found) == messages(s, 0, now, ParseResultView::nothing()),
            invariant
                s == data@,
                s.len() <= MAX_MESSAGE_SIZE,
                reader.data == data,
                found.entries == entries@.map_values(|e: AdsLogEntry| e@),
                found.registrations == registrations@.map_values(|e: RegistrationMessage| e@),
                found.spans == spans@.map_values(|e: AdsSpanEntry| e@),
                found.metrics == Seq::<AdsMetricEntryView>::empty(),
                found.trace_events == Seq::<TraceWireEvent>::empty(),
                parse_outcome(data@, now) == messages(s, 0, now, ParseResultView::nothing()),
            ensures
                messages(s, 0, now, ParseResultView::nothing()) == Ok::<ParseResultView, AdsErrorView>(found),
            decreases left(s, reader.pos as int),
        {
            proof {
                lemma_messages_forward(s, reader.pos as int, now);
            }
            let message_type: u8 = match reader.peek() {
                Some(b) => b,
                None => 0,
            };
            if message_type == 1 {
                match Self::parse_v1_from_reader(&mut reader, now) {
                    Ok(entry) => {
                        let ghost view = entry@;
                        entries.push(entry);
                        proof {
                            assert(entries@.map_values(|e: AdsLogEntry| e@) =~= found.entries.push(view));
                            found = found.with_entry(view);
                        }
                    },
                    Err(e) => {
                        if entries.len() == 0 && registrations.len() == 0 {
                            return Err(e);
                        }
                        break;
                    },
                }
            } else if message_type == 2 {
                match Self::parse_v2_from_reader(&mut reader, now) {
                    Ok(entry) => {
                        let ghost view = entry@;
                        entries.push(entry);
                        proof {
                            assert(entries@.map_values(|e: AdsLogEntry| e@) =~= found.entries.push(view));
                            found = found.with_entry(view);
                        }
                    },
                    Err(_) => {
                        if entries.len() != 0 || registrations.len() != 0 {
                            break;
                        }
                        let skip_pos: usize = reader.pos;
                        if reader.remaining() < 3 {
                            break;
                        }
                        reader.pos = skip_pos + 1;
                        match reader.read_u16() {
                            Ok(entry_len) => {
                                reader.pos = skip_pos + entry_len as usize + 3;
                            },
                            Err(_) => {
                                break;
                            },
                        }
                    },
                }
            } else if message_type == 3 {
                match Self::parse_registration_from_reader(&mut reader) {
                    Ok(message) => {
                        let ghost view = message@;
                        registrations.push(message);
                        proof {
                            assert(registrations@.map_values(|e: RegistrationMessage| e@)
                                =~= found.registrations.push(view));
                            found = found.with_registration(view);
                        }
                    },
                    Err(_) => {
                        break;
                    },
                }
            } else if message_type == 5 {
                match Self::parse_span_from_reader(&mut reader, now) {
                    Ok(span) => {
                        let ghost view = span@;
                        spans.push(span);
                        proof {
                            assert(spans@.map_values(|e: AdsSpanEntry| e@) =~= found.spans.push(view));
                            found = found.with_span(view);
                        }
                    },
                    Err(e) => {
                        if entries.len() == 0 && registrations.len() == 0 && spans.len() == 0 {
                            return Err(e);
                        }
                        break;
                    },
                }
            } else {
                break;
            }
        }
        let result = ParseResult { entries, registrations, spans, metrics, trace_events };
        assert(result@.metrics =~= Seq::empty());
        assert(result@ == found);
        Ok(result)
    }

    /// Parses all messages of a buffer. The current time stands for times that are not set.
    pub fn parse_all(data: &[u8]) -> (r: Result<ParseResult, AdsError>)
        ensures
            exists|now: Timestamp| outcome(r) == #[trigger] parse_outcome(data@, now),
    {
        let now = utc_now();
        let r = Self::parse_all_at(data, now);
        assert(outcome(r) == parse_outcome(data@, now));
        r
    }

    /// Parses one log entry of the first format, with `now` for times that are not set.
    pub fn parse_at(data: &[u8], now: Timestamp) -> (r: Result<AdsLogEntry, AdsError>)
        ensures
            outcome(r) == entry_outcome(data@, now),
    {
        if data.len() > MAX_MESSAGE_SIZE {
            return Err(
                AdsError::ParseError(with_number("Message size ", data.len() as u64, " exceeds maximum 1048576")),
            );
        }
        let mut reader = BytesReader::new(data);
        Self::parse_v1_from_reader(&mut reader, now)
    }

    /// Parses one log entry of the first format. The current time stands for times that are
    /// not set.
    pub fn parse(data: &[u8]) -> (r: Result<AdsLogEntry, AdsError>)
        ensures
            exists|now: Timestamp| outcome(r) == #[trigger] entry_outcome(data@, now),
    {
        let now = utc_now();
        let r = Self::parse_at(data, now);
        assert(outcome(r) == entry_outcome(data@, now));
        r
    }
}

} // verus!
