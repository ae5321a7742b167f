//! What holds of every buffer that is parsed.
use vstd::prelude::*;

use crate::error::AdsErrorView;
use crate::models::JsonScalarView;
use crate::parser::{
    lemma_messages_forward, lemma_v1_item_forward, messages, parse_outcome, registration, v1_argument, v1_entry,
    v1_head, v1_items, v1_property, v2_arguments, v2_entry, v2_head, Items, ParseResultView, MAX_ARGUMENTS,
    MAX_CONTEXT_VARS,
};
use crate::reader::{left, string};
use crate::time::Timestamp;

verus! {

broadcast use crate::wire::group_wire;

/// `a` is how `b` starts.
pub open spec fn starts<A>(a: Seq<A>, b: Seq<A>) -> bool {
    a.len() <= b.len() && b.take(a.len() as int) == a
}

/// All that is in `a` comes first in `b`.
pub open spec fn continues(a: ParseResultView, b: ParseResultView) -> bool {
    &&& starts(a.entries, b.entries)
    &&& starts(a.registrations, b.registrations)
    &&& starts(a.spans, b.spans)
    &&& a.metrics == b.metrics
    &&& a.trace_events == b.trace_events
}

proof fn lemma_starts_push<A>(a: Seq<A>, x: A, b: Seq<A>)
    requires
        starts(a.push(x), b),
    ensures
        starts(a, b),
{
    assert(b.take(a.len() as int) =~= b.take(a.len() as int + 1).take(a.len() as int));
    assert(a.push(x).take(a.len() as int) =~= a);
}

proof fn lemma_starts_itself<A>(a: Seq<A>)
    ensures
        starts(a, a),
{
    assert(a.take(a.len() as int) =~= a);
}

/// What was found is kept, in order, whatever follows; and with a log entry or a registration
/// found, whatever follows is no error.
pub proof fn law_found_messages_are_kept(s: Seq<u8>, pos: int, now: Timestamp, found: ParseResultView)
    ensures
        messages(s, pos, now, found) matches Ok(all) ==> continues(found, all),
        !found.no_logs() ==> messages(s, pos, now, found) is Ok,
    decreases left(s, pos),
{
    lemma_starts_itself(found.entries);
    lemma_starts_itself(found.registrations);
    lemma_starts_itself(found.spans);
    if 0 <= pos < s.len() {
        lemma_messages_forward(s, pos, now);
        if s[pos] == 1 {
            if let (Ok(e), p) = v1_entry(s, pos, now) {
                law_found_messages_are_kept(s, p, now, found.with_entry(e));
                if let Ok(all) = messages(s, p, now, found.with_entry(e)) {
                    lemma_starts_push(found.entries, e, all.entries);
                }
            }
        } else if s[pos] == 2 {
            match v2_entry(s, pos, now) {
                (Ok(e), p) => {
                    law_found_messages_are_kept(s, p, now, found.with_entry(e));
                    if let Ok(all) = messages(s, p, now, found.with_entry(e)) {
                        lemma_starts_push(found.entries, e, all.entries);
                    }
                },
                (Err(_), p) => {
                    if found.no_logs() && left(s, p) >= 3 {
                        law_found_messages_are_kept(s, p + crate::wire::u16_at(s, p + 1) + 3, now, found);
                    }
                },
            }
        } else if s[pos] == 3 {
            if let (Ok(e), p) = registration(s, pos) {
                law_found_messages_are_kept(s, p, now, found.with_registration(e));
                if let Ok(all) = messages(s, p, now, found.with_registration(e)) {
                    lemma_starts_push(found.registrations, e, all.registrations);
                }
            }
        } else if s[pos] == 5 {
            if let (Ok(e), p) = crate::parser::span_entry(s, pos, now) {
                law_found_messages_are_kept(s, p, now, found.with_span(e));
                if let Ok(all) = messages(s, p, now, found.with_span(e)) {
                    lemma_starts_push(found.spans, e, all.spans);
                }
            }
        }
    }
}

/// A byte that starts no message ends a buffer: nothing is lost, and nothing behind it is read.
pub proof fn law_padding_ends_the_buffer(s: Seq<u8>, pos: int, now: Timestamp, found: ParseResultView)
    requires
        0 <= pos < s.len(),
        s[pos] != 1 && s[pos] != 2 && s[pos] != 3 && s[pos] != 5,
    ensures
        messages(s, pos, now, found) == Ok::<ParseResultView, AdsErrorView>(found),
{
}

/// No buffer brings metrics or trace events.
pub proof fn law_buffers_bring_no_metrics(s: Seq<u8>, now: Timestamp)
    ensures
        parse_outcome(s, now) matches Ok(all) ==> all.metrics.len() == 0 && all.trace_events.len() == 0,
{
    law_found_messages_are_kept(s, 0, now, ParseResultView::nothing());
}

/// The items of an entry stay within their limits.
pub open spec fn limited(items: Items) -> bool {
    &&& items.0.dom().finite()
    &&& items.1.dom().finite()
    &&& items.0.dom().len() <= MAX_ARGUMENTS
    &&& items.1.dom().len() <= MAX_CONTEXT_VARS
}

proof fn lemma_v1_items_limited(s: Seq<u8>, pos: int, items: Items)
    requires
        limited(items),
    ensures
        v1_items(s, pos, items).0 matches Ok(all) ==> limited(all),
    decreases s.len() - pos,
{
    if 0 <= pos < s.len() && s[pos] != 0 && s[pos] != 255 {
        lemma_v1_item_forward(s, pos + 1);
        if s[pos] == 1 {
            if items.0.dom().len() < MAX_ARGUMENTS {
                if let (Ok((k, v)), p) = v1_argument(s, pos + 1) {
                    lemma_insert_len(items.0, k, v);
                    lemma_v1_items_limited(s, p, (items.0.insert(k, v), items.1));
                }
            }
        } else if s[pos] == 2 {
            if items.1.dom().len() < MAX_CONTEXT_VARS {
                if let (Ok((k, v)), p) = v1_property(s, pos + 1) {
                    lemma_insert_len(items.1, k, v);
                    lemma_v1_items_limited(s, p, (items.0, items.1.insert(k, v)));
                }
            }
        } else {
            lemma_v1_items_limited(s, pos + 1, items);
        }
    }
}

proof fn lemma_insert_len<K, V>(m: Map<K, V>, k: K, v: V)
    requires
        m.dom().finite(),
    ensures
        m.insert(k, v).dom().finite(),
        m.insert(k, v).dom().len() <= m.dom().len() + 1,
{
    assert(m.insert(k, v).dom() =~= m.dom().insert(k));
}

proof fn lemma_v2_arguments_limited(s: Seq<u8>, pos: int, n: nat, next: int, found: Map<usize, JsonScalarView>)
    requires
        found.dom().finite(),
        found.dom().len() <= MAX_ARGUMENTS,
    ensures
        v2_arguments(s, pos, n, next, found).0 matches Ok(all) ==> all.dom().finite() && all.dom().len()
            <= MAX_ARGUMENTS,
    decreases n,
{
    if n > 0 && found.dom().len() < MAX_ARGUMENTS {
        if let (Ok(v), p) = crate::parser::short_value(s, pos) {
            lemma_insert_len(found, next as usize, v);
            lemma_v2_arguments_limited(s, p, (n - 1) as nat, next + 1, found.insert(next as usize, v));
        }
    }
}

/// A log entry has no more arguments than allowed, and one of the first format no more context
/// variables than allowed.
pub proof fn law_entries_stay_within_limits(s: Seq<u8>, pos: int, now: Timestamp)
    ensures
        v1_entry(s, pos, now).0 matches Ok(e) ==> limited((e.arguments, e.context)),
        v2_entry(s, pos, now).0 matches Ok(e) ==> e.arguments.dom().finite() && e.arguments.dom().len()
            <= MAX_ARGUMENTS,
{
    if let (Ok(_), p) = v1_head(s, pos, now) {
        lemma_v1_items_limited(s, p, (Map::empty(), Map::empty()));
    }
    if let (Ok(head), p) = v2_head(s, pos, now) {
        if let (Ok(message), p) = string(s, p) {
            if let (Ok(logger), p) = string(s, p) {
                lemma_v2_arguments_limited(s, p, head.arguments as nat, 1, Map::empty());
            }
        }
    }
}

} // verus!
