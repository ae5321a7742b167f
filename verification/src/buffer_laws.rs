//! Buffers of complete messages, one behind the other, and what follows them.
use vstd::prelude::*;

use crate::error::AdsErrorView;
use crate::parser::{
    attributes, messages, parse_outcome, registration, span_body, span_counts, span_entry, span_event, span_events,
    span_ids, span_kinds, span_prefix, two_times, v1_entry, v1_head, v1_names, v2_entry, v2_head, ParseResultView,
    MAX_MESSAGE_SIZE,
};
use crate::protocol::AdsSpanEventView;
use crate::reader::{byte, left, string, time};
use crate::time::{Timestamp, FILETIME_EPOCH_DIFF};
use crate::window_laws::{
    ends_with, law_first_format_reads_anywhere, law_registration_reads_anywhere, law_second_format_reads_anywhere,
    law_span_reads_anywhere, v1_closed, within,
};
use crate::wire::u64_at;

verus! {

broadcast use crate::wire::group_wire;

/// Where the message at `pos` ends, if it can be read. One of the first format must end with an
/// end marker.
pub open spec fn message_end(s: Seq<u8>, pos: int, now: Timestamp) -> Option<int> {
    if pos < 0 || pos >= s.len() {
        None
    } else if s[pos] == 1 {
        if v1_closed(s, pos, now) { Some(v1_entry(s, pos, now).1) } else { None }
    } else if s[pos] == 2 {
        if v2_entry(s, pos, now).0 is Ok { Some(v2_entry(s, pos, now).1) } else { None }
    } else if s[pos] == 3 {
        if registration(s, pos).0 is Ok { Some(registration(s, pos).1) } else { None }
    } else if s[pos] == 5 {
        if span_entry(s, pos, now).0 is Ok { Some(span_entry(s, pos, now).1) } else { None }
    } else {
        None
    }
}

/// From `pos` to the end, `s` is made of complete messages.
pub open spec fn complete_from(s: Seq<u8>, pos: int, now: Timestamp) -> bool
    decreases left(s, pos),
{
    pos == s.len() || (0 <= pos < s.len() && match message_end(s, pos, now) {
        Some(p) => pos < p <= s.len() && complete_from(s, p, now),
        None => false,
    })
}

/// `s` is made of complete messages.
pub open spec fn complete(s: Seq<u8>, now: Timestamp) -> bool {
    complete_from(s, 0, now)
}

impl ParseResultView {
    /// What was found, and then what was found in `next`.
    pub open spec fn followed_by(self, next: ParseResultView) -> ParseResultView {
        ParseResultView {
            entries: self.entries + next.entries,
            registrations: self.registrations + next.registrations,
            spans: self.spans + next.spans,
            metrics: self.metrics + next.metrics,
            trace_events: self.trace_events + next.trace_events,
        }
    }
}

/// The message at `pos`.
spec fn message_at(s: Seq<u8>, pos: int, now: Timestamp) -> ParseResultView {
    let none = ParseResultView::nothing();
    if s[pos] == 1 {
        match v1_entry(s, pos, now).0 {
            Ok(e) => none.with_entry(e),
            Err(_) => none,
        }
    } else if s[pos] == 2 {
        match v2_entry(s, pos, now).0 {
            Ok(e) => none.with_entry(e),
            Err(_) => none,
        }
    } else if s[pos] == 3 {
        match registration(s, pos).0 {
            Ok(e) => none.with_registration(e),
            Err(_) => none,
        }
    } else {
        match span_entry(s, pos, now).0 {
            Ok(e) => none.with_span(e),
            Err(_) => none,
        }
    }
}

/// The complete messages from `pos` on.
#[verifier::opaque]
spec fn collected(s: Seq<u8>, pos: int, now: Timestamp) -> ParseResultView
    decreases left(s, pos),
{
    match message_end(s, pos, now) {
        Some(p) => if pos < p {
            message_at(s, pos, now).followed_by(collected(s, p, now))
        } else {
            ParseResultView::nothing()
        },
        None => ParseResultView::nothing(),
    }
}

/// The messages from `pos` on.
#[verifier::opaque]
spec fn read_on(s: Seq<u8>, pos: int, now: Timestamp, found: ParseResultView) -> Result<ParseResultView, AdsErrorView> {
    messages(s, pos, now, found)
}

/// What parsing the whole of `s` gives.
#[verifier::opaque]
spec fn whole(s: Seq<u8>, now: Timestamp) -> Result<ParseResultView, AdsErrorView> {
    parse_outcome(s, now)
}

proof fn lemma_whole(s: Seq<u8>, now: Timestamp)
    requires
        s.len() <= MAX_MESSAGE_SIZE,
    ensures
        whole(s, now) == read_on(s, 0, now, ParseResultView::nothing()),
{
    reveal(whole);
    reveal(read_on);
}

proof fn lemma_pushed<A>(a: Seq<A>, x: A)
    ensures
        a.push(x) == a + Seq::empty().push(x),
        a + Seq::empty() == a,
{
    assert(a.push(x) =~= a + Seq::empty().push(x));
    assert(a + Seq::empty() =~= a);
}

proof fn lemma_next_message(s: Seq<u8>, t: Seq<u8>, d: int, q: int, now: Timestamp, found: ParseResultView)
    requires
        within(s, t, d),
        message_end(s, q, now) is Some,
    ensures
        message_end(s, q, now) matches Some(p) ==> read_on(t, q + d, now, found) == read_on(
            t,
            p + d,
            now,
            found.followed_by(message_at(s, q, now)),
        ),
{
    reveal(read_on);
    assert(s[q] == t[d + q]);
    assert(found.metrics + Seq::empty() =~= found.metrics);
    assert(found.trace_events + Seq::empty() =~= found.trace_events);
    assert(found.entries + Seq::empty() =~= found.entries);
    assert(found.registrations + Seq::empty() =~= found.registrations);
    assert(found.spans + Seq::empty() =~= found.spans);
    if s[q] == 1 {
        law_first_format_reads_anywhere(s, t, d, q, now);
        lemma_pushed(found.entries, v1_entry(s, q, now).0->Ok_0);
    } else if s[q] == 2 {
        law_second_format_reads_anywhere(s, t, d, q, now);
        lemma_pushed(found.entries, v2_entry(s, q, now).0->Ok_0);
    } else if s[q] == 3 {
        law_registration_reads_anywhere(s, t, d, q);
        lemma_pushed(found.registrations, registration(s, q).0->Ok_0);
    } else {
        law_span_reads_anywhere(s, t, d, q, now);
        lemma_pushed(found.spans, span_entry(s, q, now).0->Ok_0);
    }
}

proof fn lemma_followed(a: ParseResultView, b: ParseResultView, c: ParseResultView)
    ensures
        a.followed_by(b).followed_by(c) == a.followed_by(b.followed_by(c)),
        a.followed_by(ParseResultView::nothing()) == a,
        ParseResultView::nothing().followed_by(a) == a,
{
    let x = a.followed_by(b).followed_by(c);
    let y = a.followed_by(b.followed_by(c));
    assert(x.entries =~= y.entries);
    assert(x.registrations =~= y.registrations);
    assert(x.spans =~= y.spans);
    assert(x.metrics =~= y.metrics);
    assert(x.trace_events =~= y.trace_events);
    let x = a.followed_by(ParseResultView::nothing());
    assert(x.entries =~= a.entries);
    assert(x.registrations =~= a.registrations);
    assert(x.spans =~= a.spans);
    assert(x.metrics =~= a.metrics);
    assert(x.trace_events =~= a.trace_events);
    let x = ParseResultView::nothing().followed_by(a);
    assert(x.entries =~= a.entries);
    assert(x.registrations =~= a.registrations);
    assert(x.spans =~= a.spans);
    assert(x.metrics =~= a.metrics);
    assert(x.trace_events =~= a.trace_events);
}

/// Complete messages that stand in a buffer are found, and what follows them is read next.
proof fn lemma_complete_messages(s: Seq<u8>, t: Seq<u8>, d: int, q: int, now: Timestamp, found: ParseResultView)
    requires
        within(s, t, d),
        0 <= q <= s.len(),
        complete_from(s, q, now),
    ensures
        read_on(t, q + d, now, found) == read_on(t, s.len() + d, now, found.followed_by(collected(s, q, now))),
    decreases left(s, q),
{
    reveal_with_fuel(collected, 1);
    if q == s.len() {
        lemma_followed(found, found, found);
    } else {
        let p = message_end(s, q, now)->Some_0;
        let one = message_at(s, q, now);
        lemma_next_message(s, t, d, q, now, found);
        lemma_complete_messages(s, t, d, p, now, found.followed_by(one));
        lemma_followed(found, one, collected(s, p, now));
    }
}

/// `s` is made of complete messages.
#[verifier::opaque]
spec fn all_complete(s: Seq<u8>, now: Timestamp) -> bool {
    complete(s, now)
}

proof fn lemma_complete_part(s: Seq<u8>, t: Seq<u8>, d: int, now: Timestamp, found: ParseResultView)
    requires
        within(s, t, d),
        all_complete(s, now),
    ensures
        read_on(t, d, now, found) == read_on(t, s.len() + d, now, found.followed_by(collected(s, 0, now))),
{
    reveal(all_complete);
    lemma_complete_messages(s, t, d, 0, now, found);
}

proof fn lemma_end(s: Seq<u8>, now: Timestamp, found: ParseResultView)
    ensures
        read_on(s, s.len() as int, now, found) == Ok::<ParseResultView, AdsErrorView>(found),
{
    reveal(read_on);
}

proof fn lemma_complete_buffer(s: Seq<u8>, now: Timestamp)
    requires
        complete(s, now),
        s.len() <= MAX_MESSAGE_SIZE,
    ensures
        whole(s, now) == Ok::<ParseResultView, AdsErrorView>(collected(s, 0, now)),
{
    let none = ParseResultView::nothing();
    assert(within(s, s, 0));
    lemma_complete_messages(s, s, 0, 0, now, none);
    lemma_end(s, now, none.followed_by(collected(s, 0, now)));
    lemma_followed(collected(s, 0, now), none, none);
    lemma_whole(s, now);
}

proof fn lemma_concatenated(a: Seq<u8>, b: Seq<u8>, now: Timestamp)
    requires
        all_complete(a, now),
        all_complete(b, now),
        a.len() + b.len() <= MAX_MESSAGE_SIZE,
    ensures
        whole(a + b, now) == Ok::<ParseResultView, AdsErrorView>(
            collected(a, 0, now).followed_by(collected(b, 0, now)),
        ),
{
    let none = ParseResultView::nothing();
    let s = a + b;
    let x = collected(a, 0, now);
    let y = collected(b, 0, now);
    lemma_complete_part(a, s, 0, now, none);
    lemma_followed(x, none, none);
    lemma_complete_part(b, s, a.len() as int, now, x);
    lemma_end(s, now, x.followed_by(y));
    lemma_whole(s, now);
}

/// Two buffers of complete messages, one behind the other, give what the first gives and then
/// what the second gives.
pub proof fn law_buffers_concatenate(a: Seq<u8>, b: Seq<u8>, now: Timestamp)
    requires
        complete(a, now),
        complete(b, now),
        a.len() + b.len() <= MAX_MESSAGE_SIZE,
    ensures
        parse_outcome(a, now) matches Ok(x) && parse_outcome(b, now) matches Ok(y) && parse_outcome(a + b, now) == Ok::<
            ParseResultView,
            AdsErrorView,
        >(x.followed_by(y)),
{
    lemma_complete_buffer(a, now);
    lemma_complete_buffer(b, now);
    assert(all_complete(a, now) && all_complete(b, now)) by {
        reveal(all_complete);
    }
    lemma_concatenated(a, b, now);
    reveal(whole);
}

/// The first message of `s` cannot be read.
pub open spec fn broken(s: Seq<u8>, now: Timestamp) -> bool {
    s.len() == 0 || if s[0] == 1 {
        v1_entry(s, 0, now).0 is Err
    } else if s[0] == 2 {
        v2_entry(s, 0, now).0 is Err
    } else if s[0] == 3 {
        registration(s, 0).0 is Err
    } else if s[0] == 5 {
        span_entry(s, 0, now).0 is Err
    } else {
        true
    }
}

proof fn lemma_broken_end(s: Seq<u8>, tail: Seq<u8>, d: int, now: Timestamp, found: ParseResultView)
    requires
        within(tail, s, d),
        ends_with(tail, s, d),
        broken(tail, now),
        !found.no_logs(),
    ensures
        read_on(s, d, now, found) == Ok::<ParseResultView, AdsErrorView>(found),
{
    reveal(read_on);
    if tail.len() > 0 {
        assert(tail[0] == s[d + 0]);
        if tail[0] == 1 {
            law_first_format_reads_anywhere(tail, s, d, 0, now);
        } else if tail[0] == 2 {
            law_second_format_reads_anywhere(tail, s, d, 0, now);
        } else if tail[0] == 3 {
            law_registration_reads_anywhere(tail, s, d, 0);
        } else if tail[0] == 5 {
            law_span_reads_anywhere(tail, s, d, 0, now);
        }
    }
}

proof fn lemma_broken_tail(a: Seq<u8>, tail: Seq<u8>, now: Timestamp)
    requires
        all_complete(a, now),
        !collected(a, 0, now).no_logs(),
        broken(tail, now),
        a.len() + tail.len() <= MAX_MESSAGE_SIZE,
    ensures
        whole(a + tail, now) == Ok::<ParseResultView, AdsErrorView>(collected(a, 0, now)),
{
    let none = ParseResultView::nothing();
    let s = a + tail;
    let x = collected(a, 0, now);
    assert(within(tail, s, a.len() as int));
    lemma_complete_part(a, s, 0, now, none);
    lemma_followed(x, none, none);
    lemma_broken_end(s, tail, a.len() as int, now, x);
    lemma_whole(s, now);
}

/// A tail whose first message cannot be read changes nothing once a log entry or a registration
/// was found: it is no error, and nothing is lost or added.
pub proof fn law_broken_tail_changes_nothing(a: Seq<u8>, tail: Seq<u8>, now: Timestamp)
    requires
        complete(a, now),
        parse_outcome(a, now) matches Ok(x) && !x.no_logs(),
        broken(tail, now),
        a.len() + tail.len() <= MAX_MESSAGE_SIZE,
    ensures
        parse_outcome(a + tail, now) is Ok,
        parse_outcome(a + tail, now) == parse_outcome(a, now),
{
    assert(whole(a, now) == parse_outcome(a, now)) by {
        reveal(whole);
    }
    lemma_complete_buffer(a, now);
    assert(all_complete(a, now)) by {
        reveal(all_complete);
    }
    lemma_broken_tail(a, tail, now);
    assert(whole(a + tail, now) == parse_outcome(a + tail, now)) by {
        reveal(whole);
    }
}

// Times that are set.

/// The two times at `p` are set: neither is before 1970.
pub open spec fn both_set(s: Seq<u8>, p: int) -> bool {
    u64_at(s, p) >= FILETIME_EPOCH_DIFF && u64_at(s, p + 8) >= FILETIME_EPOCH_DIFF
}

/// The times of the `n` events at `pos` are set.
pub open spec fn events_set(s: Seq<u8>, pos: int, n: nat) -> bool
    decreases n,
{
    n == 0 || {
        let p = string(s, pos).1;
        let q = byte(s, p + 8).1;
        &&& u64_at(s, p) >= FILETIME_EPOCH_DIFF
        &&& events_set(s, attributes(s, q, s[p + 8] as nat, Map::empty()).1, (n - 1) as nat)
    }
}

/// The times of the message at `pos` are set.
pub open spec fn message_times_set(s: Seq<u8>, pos: int) -> bool {
    if s[pos] == 1 {
        both_set(s, v1_names(s, pos).1)
    } else if s[pos] == 2 {
        both_set(s, pos + 4)
    } else if s[pos] == 5 {
        &&& both_set(s, pos + 37)
        &&& span_counts(s, pos + 53) matches (Ok((_, _, events, _)), p) ==> events_set(
            s,
            string(s, string(s, p).1).1,
            events as nat,
        )
    } else {
        true
    }
}

/// The times of all messages from `pos` on are set.
pub open spec fn times_set_from(s: Seq<u8>, pos: int, now: Timestamp) -> bool
    decreases left(s, pos),
{
    match message_end(s, pos, now) {
        Some(p) => message_times_set(s, pos) && (pos < p ==> times_set_from(s, p, now)),
        None => true,
    }
}

/// `s` is made of complete messages, and all their times are set.
pub open spec fn complete_and_timed(s: Seq<u8>, now: Timestamp) -> bool {
    complete(s, now) && times_set_from(s, 0, now)
}

proof fn lemma_two_times_set(s: Seq<u8>, p: int, now: Timestamp, later: Timestamp)
    requires
        both_set(s, p),
    ensures
        two_times(s, p, now) == two_times(s, p, later),
{
}

proof fn lemma_event_set(s: Seq<u8>, pos: int, now: Timestamp, later: Timestamp)
    requires
        u64_at(s, string(s, pos).1) >= FILETIME_EPOCH_DIFF,
    ensures
        span_event(s, pos, now) == span_event(s, pos, later),
        span_event(s, pos, now).0 is Ok ==> span_event(s, pos, now).1 == {
            let p = string(s, pos).1;
            attributes(s, byte(s, p + 8).1, s[p + 8] as nat, Map::empty()).1
        },
{
    assert(time(s, string(s, pos).1, now) == time(s, string(s, pos).1, later));
}

proof fn lemma_events_set(s: Seq<u8>, pos: int, n: nat, now: Timestamp, later: Timestamp, found: Seq<AdsSpanEventView>)
    requires
        events_set(s, pos, n),
    ensures
        span_events(s, pos, n, now, found) == span_events(s, pos, n, later, found),
    decreases n,
{
    if n > 0 {
        lemma_event_set(s, pos, now, later);
        if let (Ok(event), p) = span_event(s, pos, now) {
            lemma_events_set(s, p, (n - 1) as nat, now, later, found.push(event));
        }
    }
}

proof fn lemma_first_set(s: Seq<u8>, pos: int, now: Timestamp, later: Timestamp)
    requires
        both_set(s, v1_names(s, pos).1),
    ensures
        v1_head(s, pos, now) == v1_head(s, pos, later),
        v1_entry(s, pos, now) == v1_entry(s, pos, later),
{
    lemma_two_times_set(s, v1_names(s, pos).1, now, later);
}

proof fn lemma_second_set(s: Seq<u8>, pos: int, now: Timestamp, later: Timestamp)
    requires
        0 <= pos,
        both_set(s, pos + 4),
    ensures
        v2_entry(s, pos, now) == v2_entry(s, pos, later),
{
    lemma_two_times_set(s, pos + 4, now, later);
    assert(v2_head(s, pos, now) == v2_head(s, pos, later));
}

proof fn lemma_span_body_set(s: Seq<u8>, p: int, events: u8, attrs: u8, now: Timestamp, later: Timestamp)
    requires
        events_set(s, string(s, string(s, p).1).1, events as nat),
    ensures
        span_body(s, p, events, attrs, now) == span_body(s, p, events, attrs, later),
{
    lemma_events_set(s, string(s, string(s, p).1).1, events as nat, now, later, Seq::empty());
}

#[verifier::rlimit(40)]
proof fn lemma_span_set(s: Seq<u8>, pos: int, now: Timestamp, later: Timestamp)
    requires
        0 <= pos < s.len(),
        s[pos] == 5,
        message_times_set(s, pos),
    ensures
        span_entry(s, pos, now) == span_entry(s, pos, later),
{
    assert(span_prefix(s, pos).0 is Ok ==> span_prefix(s, pos).1 == pos + 3);
    assert(span_ids(s, pos + 3).0 is Ok ==> span_ids(s, pos + 3).1 == pos + 35);
    assert(span_kinds(s, pos + 35).0 is Ok ==> span_kinds(s, pos + 35).1 == pos + 37);
    lemma_two_times_set(s, pos + 37, now, later);
    assert(two_times(s, pos + 37, now).0 is Ok ==> two_times(s, pos + 37, now).1 == pos + 53);
    if let (Ok((_, _, events, attrs)), p) = span_counts(s, pos + 53) {
        lemma_span_body_set(s, p, events, attrs, now, later);
    }
}

proof fn lemma_message_set(s: Seq<u8>, pos: int, now: Timestamp, later: Timestamp)
    requires
        message_end(s, pos, now) is Some,
        message_times_set(s, pos),
    ensures
        message_end(s, pos, now) == message_end(s, pos, later),
        message_at(s, pos, now) == message_at(s, pos, later),
{
    if s[pos] == 1 {
        lemma_first_set(s, pos, now, later);
    } else if s[pos] == 2 {
        lemma_second_set(s, pos, now, later);
    } else if s[pos] == 5 {
        lemma_span_set(s, pos, now, later);
    }
}

proof fn lemma_times_set(s: Seq<u8>, pos: int, now: Timestamp, later: Timestamp)
    requires
        0 <= pos <= s.len(),
        complete_from(s, pos, now),
        times_set_from(s, pos, now),
    ensures
        complete_from(s, pos, later),
        times_set_from(s, pos, later),
        collected(s, pos, now) == collected(s, pos, later),
    decreases left(s, pos),
{
    reveal_with_fuel(collected, 1);
    if pos < s.len() {
        let p = message_end(s, pos, now)->Some_0;
        lemma_message_set(s, pos, now, later);
        lemma_times_set(s, p, now, later);
    }
}

/// Where all times are set, what a buffer of complete messages gives does not depend on the
/// present.
pub proof fn law_set_times_need_no_clock(s: Seq<u8>, now: Timestamp, later: Timestamp)
    requires
        complete_and_timed(s, now),
        s.len() <= MAX_MESSAGE_SIZE,
    ensures
        complete_and_timed(s, later),
        parse_outcome(s, now) is Ok,
        parse_outcome(s, now) == parse_outcome(s, later),
{
    lemma_times_set(s, 0, now, later);
    lemma_complete_buffer(s, now);
    lemma_complete_buffer(s, later);
    reveal(whole);
}

/// Two buffers of complete messages with their times set, one behind the other, give what the
/// first gives and then what the second gives, whenever each of them is parsed.
pub proof fn law_timed_buffers_concatenate(a: Seq<u8>, b: Seq<u8>, at_a: Timestamp, at_b: Timestamp, at_both: Timestamp)
    requires
        complete_and_timed(a, at_a),
        complete_and_timed(b, at_b),
        a.len() + b.len() <= MAX_MESSAGE_SIZE,
    ensures
        parse_outcome(a, at_a) matches Ok(x) && parse_outcome(b, at_b) matches Ok(y) && parse_outcome(a + b, at_both)
            == Ok::<ParseResultView, AdsErrorView>(x.followed_by(y)),
{
    lemma_same_whenever(a, at_a, at_both);
    lemma_same_whenever(b, at_b, at_both);
    lemma_concatenated(a, b, at_both);
    reveal(whole);
}

/// A tail whose first message cannot be read changes nothing behind complete messages with their
/// times set, one of them a log entry or a registration, whenever each buffer is parsed.
pub proof fn law_timed_broken_tail_changes_nothing(a: Seq<u8>, tail: Seq<u8>, at_a: Timestamp, at_both: Timestamp)
    requires
        complete_and_timed(a, at_a),
        parse_outcome(a, at_a) matches Ok(x) && !x.no_logs(),
        broken(tail, at_both),
        a.len() + tail.len() <= MAX_MESSAGE_SIZE,
    ensures
        parse_outcome(a + tail, at_both) is Ok,
        parse_outcome(a + tail, at_both) == parse_outcome(a, at_a),
{
    assert(whole(a, at_a) == parse_outcome(a, at_a)) by {
        reveal(whole);
    }
    lemma_same_whenever(a, at_a, at_both);
    lemma_broken_tail(a, tail, at_both);
    assert(whole(a + tail, at_both) == parse_outcome(a + tail, at_both)) by {
        reveal(whole);
    }
}

proof fn lemma_same_whenever(s: Seq<u8>, now: Timestamp, later: Timestamp)
    requires
        complete_and_timed(s, now),
        s.len() <= MAX_MESSAGE_SIZE,
    ensures
        all_complete(s, later),
        collected(s, 0, now) == collected(s, 0, later),
        whole(s, now) == Ok::<ParseResultView, AdsErrorView>(collected(s, 0, now)),
{
    lemma_times_set(s, 0, now, later);
    lemma_complete_buffer(s, now);
    reveal(all_complete);
}

} // verus!
