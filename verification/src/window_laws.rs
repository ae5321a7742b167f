//! What is read of a message depends on its own bytes only: it reads the same wherever it stands
//! and whatever stands behind it.
use vstd::prelude::*;

use crate::models::JsonScalarView;
use crate::parser::{
    app_names, attribute, attributes, registration, short_value, span_body, span_counts, span_entry, span_event,
    span_events, span_ids, span_kinds, span_prefix, task_counts, two_times, v1_argument, v1_entry, v1_head, v1_items,
    v1_names, v1_property, v1_task, v2_arguments, v2_body, v2_entry, v2_head, v2_prefix, v2_properties, v2_scopes,
    Items, V2Head, MAX_ARGUMENTS, MAX_CONTEXT_VARS,
};
use crate::protocol::AdsSpanEventView;
use crate::reader::{byte, bytes, dword, int16, int32, qword, string, time, word, Step};
use crate::time::Timestamp;
use crate::value::{
    enum_type, extended_value, plain_value, remapped, tagged_value, typed_value, unsigned_value, EnumTag,
};

verus! {

broadcast use {crate::wire::group_wire, crate::value::lemma_typed_value_forward};

/// `s` stands in `t` behind `d` bytes.
pub open spec fn within(s: Seq<u8>, t: Seq<u8>, d: int) -> bool {
    &&& 0 <= d
    &&& d + s.len() <= t.len()
    &&& forall|i: int| 0 <= i < s.len() ==> #[trigger] s[i] == t[d + i]
}

/// `s` and `t` end together.
pub open spec fn ends_with(s: Seq<u8>, t: Seq<u8>, d: int) -> bool {
    d + s.len() == t.len()
}

/// Of `s` and `d` bytes on in `t` the same is read: what succeeds in `s`, and everything if
/// both end together.
pub open spec fn same_read<T>(of_s: Step<T>, of_t: Step<T>, together: bool, d: int) -> bool {
    of_s.0 is Ok || together ==> of_t == (of_s.0, of_s.1 + d)
}

/// The cursor stays between where it stood and the end.
pub open spec fn stays<T>(s: Seq<u8>, pos: int, step: Step<T>) -> bool {
    pos <= step.1 <= s.len()
}

proof fn lemma_numbers(s: Seq<u8>, t: Seq<u8>, d: int, q: int, now: Timestamp)
    requires
        within(s, t, d),
        0 <= q <= s.len(),
    ensures
        same_read(byte(s, q), byte(t, q + d), ends_with(s, t, d), d),
        same_read(word(s, q), word(t, q + d), ends_with(s, t, d), d),
        same_read(int16(s, q), int16(t, q + d), ends_with(s, t, d), d),
        same_read(dword(s, q), dword(t, q + d), ends_with(s, t, d), d),
        same_read(int32(s, q), int32(t, q + d), ends_with(s, t, d), d),
        same_read(qword(s, q), qword(t, q + d), ends_with(s, t, d), d),
        same_read(time(s, q, now), time(t, q + d, now), ends_with(s, t, d), d),
{
    if q + 1 <= s.len() {
        assert(s[q] == t[d + q]);
    }
    if q + 2 <= s.len() {
        assert(s[q + 1] == t[d + (q + 1)]);
    }
    if q + 4 <= s.len() {
        assert(s[q + 2] == t[d + (q + 2)]);
        assert(s[q + 3] == t[d + (q + 3)]);
    }
    if q + 8 <= s.len() {
        assert(s[q + 4] == t[d + (q + 4)]);
        assert(s[q + 5] == t[d + (q + 5)]);
        assert(s[q + 6] == t[d + (q + 6)]);
        assert(s[q + 7] == t[d + (q + 7)]);
    }
}

proof fn lemma_bytes(s: Seq<u8>, t: Seq<u8>, d: int, q: int, n: int)
    requires
        within(s, t, d),
        0 <= q <= s.len(),
        0 <= n,
    ensures
        same_read(bytes(s, q, n), bytes(t, q + d, n), ends_with(s, t, d), d),
{
    if q + n <= s.len() {
        assert(s.subrange(q, q + n) =~= t.subrange(q + d, q + d + n));
    }
}

proof fn lemma_string(s: Seq<u8>, t: Seq<u8>, d: int, q: int)
    requires
        within(s, t, d),
        0 <= q <= s.len(),
    ensures
        same_read(string(s, q), string(t, q + d), ends_with(s, t, d), d),
        stays(s, q, string(s, q)),
{
    lemma_numbers(s, t, d, q, Timestamp { secs: 0, nanos: 0 });
    if let (Ok(n), p) = byte(s, q) {
        lemma_bytes(s, t, d, p, n as int);
    }
}

proof fn lemma_enum_type(s: Seq<u8>, t: Seq<u8>, d: int, q: int, tag: EnumTag)
    requires
        within(s, t, d),
        0 <= q <= s.len(),
    ensures
        same_read(enum_type(s, q, tag), enum_type(t, q + d, tag), ends_with(s, t, d), d),
        stays(s, q, enum_type(s, q, tag)),
{
    lemma_numbers(s, t, d, q, Timestamp { secs: 0, nanos: 0 });
}

proof fn lemma_unsigned_value(s: Seq<u8>, t: Seq<u8>, d: int, q: int, kind: int)
    requires
        within(s, t, d),
        0 <= q <= s.len(),
    ensures
        same_read(unsigned_value(s, q, kind), unsigned_value(t, q + d, kind), ends_with(s, t, d), d),
{
    lemma_numbers(s, t, d, q, Timestamp { secs: 0, nanos: 0 });
}

proof fn lemma_plain_value(s: Seq<u8>, t: Seq<u8>, d: int, q: int, kind: int)
    requires
        within(s, t, d),
        0 <= q <= s.len(),
    ensures
        same_read(plain_value(s, q, kind), plain_value(t, q + d, kind), ends_with(s, t, d), d),
{
    lemma_numbers(s, t, d, q, Timestamp { secs: 0, nanos: 0 });
    lemma_string(s, t, d, q);
}

proof fn lemma_extended_value(s: Seq<u8>, t: Seq<u8>, d: int, q: int, kind: int, tag: EnumTag)
    requires
        within(s, t, d),
        0 <= q <= s.len(),
    ensures
        same_read(extended_value(s, q, kind, tag), extended_value(t, q + d, kind, tag), ends_with(s, t, d), d),
{
    lemma_numbers(s, t, d, q, Timestamp { secs: 0, nanos: 0 });
    if kind == 20005 {
        lemma_enum_type(s, t, d, q, tag);
        if let (Ok(k), p) = enum_type(s, q, tag) {
            lemma_unsigned_value(s, t, d, p, k);
        }
    } else if kind == 20006 {
        if let (Ok(n), p) = byte(s, q) {
            lemma_bytes(s, t, d, p, 2 * n);
        }
    }
}

proof fn lemma_typed_value(s: Seq<u8>, t: Seq<u8>, d: int, q: int, kind: int, tag: EnumTag)
    requires
        within(s, t, d),
        0 <= q <= s.len(),
    ensures
        same_read(typed_value(s, q, kind, tag), typed_value(t, q + d, kind, tag), ends_with(s, t, d), d),
{
    reveal(typed_value);
    lemma_unsigned_value(s, t, d, q, kind);
    lemma_plain_value(s, t, d, q, kind);
    lemma_extended_value(s, t, d, q, kind, tag);
}

proof fn lemma_tagged_value(s: Seq<u8>, t: Seq<u8>, d: int, q: int)
    requires
        within(s, t, d),
        0 <= q <= s.len(),
    ensures
        same_read(tagged_value(s, q), tagged_value(t, q + d), ends_with(s, t, d), d),
        stays(s, q, tagged_value(s, q)),
{
    lemma_numbers(s, t, d, q, Timestamp { secs: 0, nanos: 0 });
    if let (Ok(kind), p) = int16(s, q) {
        lemma_typed_value(s, t, d, p, kind as int, EnumTag::Word);
    }
}

proof fn lemma_short_value(s: Seq<u8>, t: Seq<u8>, d: int, q: int)
    requires
        within(s, t, d),
        0 <= q <= s.len(),
    ensures
        same_read(short_value(s, q), short_value(t, q + d), ends_with(s, t, d), d),
        stays(s, q, short_value(s, q)),
{
    lemma_numbers(s, t, d, q, Timestamp { secs: 0, nanos: 0 });
    if let (Ok(kind), p) = byte(s, q) {
        lemma_typed_value(s, t, d, p, remapped(kind as int), EnumTag::Byte);
    }
}

proof fn lemma_attribute(s: Seq<u8>, t: Seq<u8>, d: int, q: int)
    requires
        within(s, t, d),
        0 <= q <= s.len(),
    ensures
        same_read(attribute(s, q), attribute(t, q + d), ends_with(s, t, d), d),
        stays(s, q, attribute(s, q)),
{
    lemma_string(s, t, d, q);
    lemma_short_value(s, t, d, string(s, q).1);
}

proof fn lemma_attributes(s: Seq<u8>, t: Seq<u8>, d: int, q: int, n: nat, found: Map<Seq<char>, JsonScalarView>)
    requires
        within(s, t, d),
        0 <= q <= s.len(),
    ensures
        same_read(attributes(s, q, n, found), attributes(t, q + d, n, found), ends_with(s, t, d), d),
        stays(s, q, attributes(s, q, n, found)),
    decreases n,
{
    if n > 0 {
        lemma_attribute(s, t, d, q);
        if let (Ok((k, v)), p) = attribute(s, q) {
            lemma_attributes(s, t, d, p, (n - 1) as nat, found.insert(k, v));
        }
    }
}

proof fn lemma_two_times(s: Seq<u8>, t: Seq<u8>, d: int, q: int, now: Timestamp)
    requires
        within(s, t, d),
        0 <= q <= s.len(),
    ensures
        same_read(two_times(s, q, now), two_times(t, q + d, now), ends_with(s, t, d), d),
        stays(s, q, two_times(s, q, now)),
{
    lemma_numbers(s, t, d, q, now);
    lemma_numbers(s, t, d, time(s, q, now).1, now);
}

proof fn lemma_app_names(s: Seq<u8>, t: Seq<u8>, d: int, q: int)
    requires
        within(s, t, d),
        0 <= q <= s.len(),
    ensures
        same_read(app_names(s, q), app_names(t, q + d), ends_with(s, t, d), d),
        stays(s, q, app_names(s, q)),
{
    lemma_string(s, t, d, q);
    let p = string(s, q).1;
    lemma_string(s, t, d, p);
    lemma_numbers(s, t, d, string(s, p).1, Timestamp { secs: 0, nanos: 0 });
}

proof fn lemma_task_counts(s: Seq<u8>, t: Seq<u8>, d: int, q: int)
    requires
        within(s, t, d),
        0 <= q <= s.len(),
    ensures
        same_read(task_counts(s, q), task_counts(t, q + d), ends_with(s, t, d), d),
        stays(s, q, task_counts(s, q)),
{
    let now = Timestamp { secs: 0, nanos: 0 };
    lemma_numbers(s, t, d, q, now);
    let p = byte(s, q).1;
    lemma_numbers(s, t, d, p, now);
    let p = dword(s, p).1;
    lemma_numbers(s, t, d, p, now);
    let p = byte(s, p).1;
    lemma_numbers(s, t, d, p, now);
}

// The first format.

proof fn lemma_v1_names(s: Seq<u8>, t: Seq<u8>, d: int, q: int)
    requires
        within(s, t, d),
        0 <= q <= s.len(),
    ensures
        same_read(v1_names(s, q), v1_names(t, q + d), ends_with(s, t, d), d),
        stays(s, q, v1_names(s, q)),
{
    let now = Timestamp { secs: 0, nanos: 0 };
    lemma_numbers(s, t, d, q, now);
    let p = byte(s, q).1;
    lemma_string(s, t, d, p);
    let p = string(s, p).1;
    lemma_string(s, t, d, p);
    let p = string(s, p).1;
    lemma_numbers(s, t, d, p, now);
}

proof fn lemma_v1_task(s: Seq<u8>, t: Seq<u8>, d: int, q: int)
    requires
        within(s, t, d),
        0 <= q <= s.len(),
    ensures
        same_read(v1_task(s, q), v1_task(t, q + d), ends_with(s, t, d), d),
        stays(s, q, v1_task(s, q)),
{
    let now = Timestamp { secs: 0, nanos: 0 };
    lemma_numbers(s, t, d, q, now);
    let p = int32(s, q).1;
    lemma_string(s, t, d, p);
    lemma_numbers(s, t, d, string(s, p).1, now);
}

proof fn lemma_v1_head(s: Seq<u8>, t: Seq<u8>, d: int, q: int, now: Timestamp)
    requires
        within(s, t, d),
        0 <= q <= s.len(),
    ensures
        same_read(v1_head(s, q, now), v1_head(t, q + d, now), ends_with(s, t, d), d),
        stays(s, q, v1_head(s, q, now)),
{
    lemma_v1_names(s, t, d, q);
    let p = v1_names(s, q).1;
    lemma_two_times(s, t, d, p, now);
    let p = two_times(s, p, now).1;
    lemma_v1_task(s, t, d, p);
    let p = v1_task(s, p).1;
    lemma_app_names(s, t, d, p);
}

proof fn lemma_v1_argument(s: Seq<u8>, t: Seq<u8>, d: int, q: int)
    requires
        within(s, t, d),
        0 <= q <= s.len(),
    ensures
        same_read(v1_argument(s, q), v1_argument(t, q + d), ends_with(s, t, d), d),
        stays(s, q, v1_argument(s, q)),
{
    lemma_numbers(s, t, d, q, Timestamp { secs: 0, nanos: 0 });
    lemma_tagged_value(s, t, d, byte(s, q).1);
}

proof fn lemma_v1_property(s: Seq<u8>, t: Seq<u8>, d: int, q: int)
    requires
        within(s, t, d),
        0 <= q <= s.len(),
    ensures
        same_read(v1_property(s, q), v1_property(t, q + d), ends_with(s, t, d), d),
        stays(s, q, v1_property(s, q)),
{
    lemma_numbers(s, t, d, q, Timestamp { secs: 0, nanos: 0 });
    let p = byte(s, q).1;
    lemma_string(s, t, d, p);
    lemma_tagged_value(s, t, d, string(s, p).1);
}

/// The items from `pos` on end with an end marker.
pub open spec fn items_closed(s: Seq<u8>, pos: int, items: Items) -> bool
    decreases s.len() - pos,
{
    proof {
        crate::parser::lemma_v1_item_forward(s, pos + 1);
    }
    if pos < 0 || pos >= s.len() {
        false
    } else if s[pos] == 0 || s[pos] == 255 {
        true
    } else if s[pos] == 1 {
        items.0.dom().len() < MAX_ARGUMENTS && match v1_argument(s, pos + 1) {
            (Err(_), _) => false,
            (Ok((k, v)), p) => items_closed(s, p, (items.0.insert(k, v), items.1)),
        }
    } else if s[pos] == 2 {
        items.1.dom().len() < MAX_CONTEXT_VARS && match v1_property(s, pos + 1) {
            (Err(_), _) => false,
            (Ok((k, v)), p) => items_closed(s, p, (items.0, items.1.insert(k, v))),
        }
    } else {
        items_closed(s, pos + 1, items)
    }
}

proof fn lemma_v1_items(s: Seq<u8>, t: Seq<u8>, d: int, q: int, items: Items)
    requires
        within(s, t, d),
        0 <= q <= s.len(),
        items_closed(s, q, items) || ends_with(s, t, d),
    ensures
        v1_items(t, q + d, items) == (v1_items(s, q, items).0, v1_items(s, q, items).1 + d),
        stays(s, q, v1_items(s, q, items)),
    decreases s.len() - q,
{
    if q < s.len() {
        assert(s[q] == t[d + q]);
        if s[q] == 0 || s[q] == 255 {
        } else if s[q] == 1 {
            lemma_v1_argument(s, t, d, q + 1);
            if items.0.dom().len() < MAX_ARGUMENTS {
                if let (Ok((k, v)), p) = v1_argument(s, q + 1) {
                    lemma_v1_items(s, t, d, p, (items.0.insert(k, v), items.1));
                }
            }
        } else if s[q] == 2 {
            lemma_v1_property(s, t, d, q + 1);
            if items.1.dom().len() < MAX_CONTEXT_VARS {
                if let (Ok((k, v)), p) = v1_property(s, q + 1) {
                    lemma_v1_items(s, t, d, p, (items.0, items.1.insert(k, v)));
                }
            }
        } else {
            lemma_v1_items(s, t, d, q + 1, items);
        }
    }
}

/// The entry of the first format at `pos` is read, and ends with an end marker.
pub open spec fn v1_closed(s: Seq<u8>, pos: int, now: Timestamp) -> bool {
    v1_entry(s, pos, now).0 is Ok && items_closed(s, v1_head(s, pos, now).1, (Map::empty(), Map::empty()))
}

/// A log entry of the first format with an end marker reads the same wherever it stands, and so
/// does any if nothing else stands behind it.
pub proof fn law_first_format_reads_anywhere(s: Seq<u8>, t: Seq<u8>, d: int, q: int, now: Timestamp)
    requires
        within(s, t, d),
        0 <= q <= s.len(),
        v1_closed(s, q, now) || ends_with(s, t, d),
    ensures
        v1_entry(t, q + d, now) == (v1_entry(s, q, now).0, v1_entry(s, q, now).1 + d),
        stays(s, q, v1_entry(s, q, now)),
{
    lemma_v1_head(s, t, d, q, now);
    if let (Ok(head), p) = v1_head(s, q, now) {
        lemma_v1_items(s, t, d, p, (Map::empty(), Map::empty()));
    }
}

// The second format.

proof fn lemma_v2_arguments(s: Seq<u8>, t: Seq<u8>, d: int, q: int, n: nat, next: int, found: Map<usize, JsonScalarView>)
    requires
        within(s, t, d),
        0 <= q <= s.len(),
    ensures
        same_read(
            v2_arguments(s, q, n, next, found),
            v2_arguments(t, q + d, n, next, found),
            ends_with(s, t, d),
            d,
        ),
        stays(s, q, v2_arguments(s, q, n, next, found)),
    decreases n,
{
    if n > 0 && found.dom().len() < MAX_ARGUMENTS {
        lemma_short_value(s, t, d, q);
        if let (Ok(v), p) = short_value(s, q) {
            lemma_v2_arguments(s, t, d, p, (n - 1) as nat, next + 1, found.insert(next as usize, v));
        }
    }
}

proof fn lemma_v2_properties(
    s: Seq<u8>,
    t: Seq<u8>,
    d: int,
    q: int,
    n: nat,
    scope: u8,
    found: Map<Seq<char>, JsonScalarView>,
)
    requires
        within(s, t, d),
        0 <= q <= s.len(),
    ensures
        same_read(
            v2_properties(s, q, n, scope, found),
            v2_properties(t, q + d, n, scope, found),
            ends_with(s, t, d),
            d,
        ),
        stays(s, q, v2_properties(s, q, n, scope, found)),
    decreases n,
{
    if n > 0 {
        lemma_attribute(s, t, d, q);
        if let (Ok((k, v)), p) = attribute(s, q) {
            lemma_v2_properties(
                s,
                t,
                d,
                p,
                (n - 1) as nat,
                scope,
                found.insert(crate::parser::scope_key(scope, k), v),
            );
        }
    }
}

proof fn lemma_v2_scopes(
    s: Seq<u8>,
    t: Seq<u8>,
    d: int,
    q: int,
    n: nat,
    count: int,
    found: Map<Seq<char>, JsonScalarView>,
)
    requires
        within(s, t, d),
        0 <= q <= s.len(),
    ensures
        same_read(v2_scopes(s, q, n, count, found), v2_scopes(t, q + d, n, count, found), ends_with(s, t, d), d),
        stays(s, q, v2_scopes(s, q, n, count, found)),
    decreases n,
{
    let now = Timestamp { secs: 0, nanos: 0 };
    if n > 0 && count < MAX_CONTEXT_VARS {
        lemma_numbers(s, t, d, q, now);
        if let (Ok(scope), p) = byte(s, q) {
            lemma_numbers(s, t, d, p, now);
            if let (Ok(k), p) = byte(s, p) {
                lemma_v2_properties(s, t, d, p, k as nat, scope, found);
                if let (Ok(more), p) = v2_properties(s, p, k as nat, scope, found) {
                    lemma_v2_scopes(s, t, d, p, (n - 1) as nat, count + k, more);
                }
            }
        }
    }
}

proof fn lemma_v2_body(s: Seq<u8>, t: Seq<u8>, d: int, q: int, arguments: u8, scopes: u8)
    requires
        within(s, t, d),
        0 <= q <= s.len(),
    ensures
        same_read(v2_body(s, q, arguments, scopes), v2_body(t, q + d, arguments, scopes), ends_with(s, t, d), d),
        stays(s, q, v2_body(s, q, arguments, scopes)),
{
    lemma_string(s, t, d, q);
    let p = string(s, q).1;
    lemma_string(s, t, d, p);
    let p = string(s, p).1;
    lemma_v2_arguments(s, t, d, p, arguments as nat, 1, Map::empty());
    let p = v2_arguments(s, p, arguments as nat, 1, Map::empty()).1;
    lemma_v2_scopes(s, t, d, p, scopes as nat, 0, Map::empty());
}

proof fn lemma_v2_prefix(s: Seq<u8>, t: Seq<u8>, d: int, q: int)
    requires
        within(s, t, d),
        0 <= q <= s.len(),
    ensures
        same_read(v2_prefix(s, q), v2_prefix(t, q + d), ends_with(s, t, d), d),
        stays(s, q, v2_prefix(s, q)),
{
    let now = Timestamp { secs: 0, nanos: 0 };
    lemma_numbers(s, t, d, q, now);
    lemma_numbers(s, t, d, byte(s, q).1, now);
}

proof fn lemma_v2_head(s: Seq<u8>, t: Seq<u8>, d: int, q: int, now: Timestamp)
    requires
        within(s, t, d),
        0 <= q <= s.len(),
    ensures
        stays(s, q, v2_head(s, q, now)),
        v2_head(s, q, now).0 is Ok || ends_with(s, t, d) ==> v2_head(t, q + d, now) == (
            match v2_head(s, q, now).0 {
                Ok(head) => Ok(V2Head { start: head.start + d, ..head }),
                Err(e) => Err(e),
            },
            v2_head(s, q, now).1 + d,
        ),
{
    lemma_v2_prefix(s, t, d, q);
    let start = v2_prefix(s, q).1;
    lemma_numbers(s, t, d, start, now);
    let p = byte(s, start).1;
    lemma_two_times(s, t, d, p, now);
    let p = two_times(s, p, now).1;
    lemma_task_counts(s, t, d, p);
}

/// A log entry of the second format reads the same wherever it stands; one that cannot be read
/// does so if nothing else stands behind it.
pub proof fn law_second_format_reads_anywhere(s: Seq<u8>, t: Seq<u8>, d: int, q: int, now: Timestamp)
    requires
        within(s, t, d),
        0 <= q <= s.len(),
    ensures
        same_read(v2_entry(s, q, now), v2_entry(t, q + d, now), ends_with(s, t, d), d),
{
    lemma_v2_head(s, t, d, q, now);
    if let (Ok(head), p) = v2_head(s, q, now) {
        lemma_v2_body(s, t, d, p, head.arguments, head.scopes);
    }
}

// Registrations and spans.

/// A registration reads the same wherever it stands; one that cannot be read does so if nothing
/// else stands behind it.
pub proof fn law_registration_reads_anywhere(s: Seq<u8>, t: Seq<u8>, d: int, q: int)
    requires
        within(s, t, d),
        0 <= q <= s.len(),
    ensures
        same_read(registration(s, q), registration(t, q + d), ends_with(s, t, d), d),
        stays(s, q, registration(s, q)),
{
    let now = Timestamp { secs: 0, nanos: 0 };
    lemma_numbers(s, t, d, q, now);
    let p = byte(s, q).1;
    lemma_numbers(s, t, d, p, now);
    let p = byte(s, p).1;
    lemma_string(s, t, d, p);
    lemma_app_names(s, t, d, string(s, p).1);
}

proof fn lemma_span_ids(s: Seq<u8>, t: Seq<u8>, d: int, q: int)
    requires
        within(s, t, d),
        0 <= q <= s.len(),
    ensures
        same_read(span_ids(s, q), span_ids(t, q + d), ends_with(s, t, d), d),
        stays(s, q, span_ids(s, q)),
{
    lemma_bytes(s, t, d, q, 16);
    let p = bytes(s, q, 16).1;
    lemma_bytes(s, t, d, p, 8);
    lemma_bytes(s, t, d, bytes(s, p, 8).1, 8);
}

proof fn lemma_span_kinds(s: Seq<u8>, t: Seq<u8>, d: int, q: int)
    requires
        within(s, t, d),
        0 <= q <= s.len(),
    ensures
        same_read(span_kinds(s, q), span_kinds(t, q + d), ends_with(s, t, d), d),
        stays(s, q, span_kinds(s, q)),
{
    let now = Timestamp { secs: 0, nanos: 0 };
    lemma_numbers(s, t, d, q, now);
    lemma_numbers(s, t, d, byte(s, q).1, now);
}

proof fn lemma_span_event(s: Seq<u8>, t: Seq<u8>, d: int, q: int, now: Timestamp)
    requires
        within(s, t, d),
        0 <= q <= s.len(),
    ensures
        same_read(span_event(s, q, now), span_event(t, q + d, now), ends_with(s, t, d), d),
        stays(s, q, span_event(s, q, now)),
{
    lemma_string(s, t, d, q);
    let p = string(s, q).1;
    lemma_numbers(s, t, d, p, now);
    let p = time(s, p, now).1;
    lemma_numbers(s, t, d, p, now);
    if let (Ok(n), p) = byte(s, p) {
        lemma_attributes(s, t, d, p, n as nat, Map::empty());
    }
}

proof fn lemma_span_events(s: Seq<u8>, t: Seq<u8>, d: int, q: int, n: nat, now: Timestamp, found: Seq<AdsSpanEventView>)
    requires
        within(s, t, d),
        0 <= q <= s.len(),
    ensures
        same_read(span_events(s, q, n, now, found), span_events(t, q + d, n, now, found), ends_with(s, t, d), d),
        stays(s, q, span_events(s, q, n, now, found)),
    decreases n,
{
    if n > 0 {
        lemma_span_event(s, t, d, q, now);
        if let (Ok(event), p) = span_event(s, q, now) {
            lemma_span_events(s, t, d, p, (n - 1) as nat, now, found.push(event));
        }
    }
}

proof fn lemma_span_body(s: Seq<u8>, t: Seq<u8>, d: int, q: int, events: u8, attrs: u8, now: Timestamp)
    requires
        within(s, t, d),
        0 <= q <= s.len(),
    ensures
        same_read(span_body(s, q, events, attrs, now), span_body(t, q + d, events, attrs, now), ends_with(s, t, d), d),
{
    lemma_string(s, t, d, q);
    let p = string(s, q).1;
    lemma_string(s, t, d, p);
    let p = string(s, p).1;
    lemma_span_events(s, t, d, p, events as nat, now, Seq::empty());
    let p = span_events(s, p, events as nat, now, Seq::empty()).1;
    lemma_attributes(s, t, d, p, attrs as nat, Map::empty());
}

proof fn lemma_span_prefix(s: Seq<u8>, t: Seq<u8>, d: int, q: int)
    requires
        within(s, t, d),
        0 <= q <= s.len(),
    ensures
        same_read(span_prefix(s, q), span_prefix(t, q + d), ends_with(s, t, d), d),
        stays(s, q, span_prefix(s, q)),
{
    let now = Timestamp { secs: 0, nanos: 0 };
    lemma_numbers(s, t, d, q, now);
    lemma_numbers(s, t, d, byte(s, q).1, now);
}

proof fn lemma_span_counts(s: Seq<u8>, t: Seq<u8>, d: int, q: int)
    requires
        within(s, t, d),
        0 <= q <= s.len(),
    ensures
        same_read(span_counts(s, q), span_counts(t, q + d), ends_with(s, t, d), d),
        stays(s, q, span_counts(s, q)),
{
    lemma_task_counts(s, t, d, q);
}

/// A span reads the same wherever it stands; one that cannot be read does so if nothing else
/// stands behind it.
#[verifier::rlimit(40)]
pub proof fn law_span_reads_anywhere(s: Seq<u8>, t: Seq<u8>, d: int, q: int, now: Timestamp)
    requires
        within(s, t, d),
        0 <= q <= s.len(),
    ensures
        same_read(span_entry(s, q, now), span_entry(t, q + d, now), ends_with(s, t, d), d),
{
    lemma_span_prefix(s, t, d, q);
    let p = span_prefix(s, q).1;
    lemma_span_ids(s, t, d, p);
    let p = span_ids(s, p).1;
    lemma_span_kinds(s, t, d, p);
    let p = span_kinds(s, p).1;
    lemma_two_times(s, t, d, p, now);
    let p = two_times(s, p, now).1;
    lemma_span_counts(s, t, d, p);
    if let (Ok((task_index, cycle, events, attrs)), p) = span_counts(s, p) {
        lemma_span_body(s, t, d, p, events, attrs, now);
    }
}

} // verus!
