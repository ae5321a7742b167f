//! What is made of messages that are not as they should be: unknown levels and versions, too many
//! parts, texts that are not UTF-8, and messages that cannot be read.
use vstd::prelude::*;
use vstd::utf8::valid_utf8;

use crate::encoding::{fits, lemma_byte_read, lemma_stands_split, lemma_text_read, lemma_word_read, stands, text_bytes};
use crate::error::AdsErrorView;
use crate::models::{JsonScalarView, LogLevel, SpanKind, SpanStatusCode};
use crate::parser::{
    entry_outcome, messages, parse_outcome, registration, span_counts, span_entry, span_event, span_kinds, span_prefix,
    task_counts, v1_entry, v1_items, v1_names, v2_arguments, v2_entry, v2_head, v2_prefix, v2_scopes, Items,
    ParseResultView,
};
use crate::protocol::{AdsLogEntryView, AdsProtocolVersion, RegistrationMessageView};
use crate::reader::{byte, dword, int16, int32, qword, string, time, word, Step};
use crate::text::dec;
use crate::time::Timestamp;
use crate::wire::{le16, u16_at};

verus! {

broadcast use crate::wire::group_wire;

// The first format.

/// The level of an entry of the first format is the low byte of its word. The version is that of
/// its first byte. A level that is none, and a version that is none, is an error that names it.
pub proof fn law_levels_are_low_bytes(s: Seq<u8>, p: int, v: u8, message: Seq<char>, logger: Seq<char>, n: u16)
    requires
        fits(message),
        fits(logger),
        stands(s, p, seq![v] + (text_bytes(message) + (text_bytes(logger) + le16(n)))),
    ensures
        !(1 <= v <= 3) ==> v1_names(s, p).0 == Err::<
            (AdsProtocolVersion, Seq<char>, Seq<char>, LogLevel),
            AdsErrorView,
        >(AdsErrorView::InvalidVersion(v)),
        1 <= v <= 3 && n % 256 > 5 ==> v1_names(s, p).0 == Err::<
            (AdsProtocolVersion, Seq<char>, Seq<char>, LogLevel),
            AdsErrorView,
        >(AdsErrorView::ParseError("Invalid log level: "@ + dec(n as nat))),
        1 <= v <= 3 && n % 256 <= 5 ==> {
            &&& v1_names(s, p).0 matches Ok((version, m, l, level)) && m == message && l == logger && version == (if v
                == 1 {
                AdsProtocolVersion::V1
            } else if v == 2 {
                AdsProtocolVersion::V2
            } else {
                AdsProtocolVersion::Registration
            }) && level == (if n % 256 == 0 {
                LogLevel::Trace
            } else if n % 256 == 1 {
                LogLevel::Debug
            } else if n % 256 == 2 {
                LogLevel::Info
            } else if n % 256 == 3 {
                LogLevel::Warn
            } else if n % 256 == 4 {
                LogLevel::Error
            } else {
                LogLevel::Fatal
            })
        },
{
    let a = text_bytes(message);
    let b = text_bytes(logger);
    lemma_stands_split(s, p, seq![v], a + (b + le16(n)));
    lemma_stands_split(s, p + 1, a, b + le16(n));
    lemma_stands_split(s, p + 1 + a.len(), b, le16(n));
    lemma_byte_read(s, p, v);
    lemma_text_read(s, p + 1, message);
    lemma_text_read(s, p + 1 + a.len() as int, logger);
    lemma_word_read(s, p + 1 + a.len() as int + b.len() as int, n);
}

/// Behind the fixed part of an entry, 0 and 255 end the arguments and properties, and so does the
/// end of the buffer. 1 starts an argument and 2 a property. Any other byte is passed over.
pub proof fn law_item_marks(s: Seq<u8>, p: int, items: Items)
    requires
        0 <= p,
    ensures
        p >= s.len() ==> v1_items(s, p, items) == (Ok::<Items, AdsErrorView>(items), p),
        p < s.len() && (s[p] == 0 || s[p] == 255) ==> v1_items(s, p, items) == (Ok::<Items, AdsErrorView>(items), p + 1),
        p < s.len() && 3 <= s[p] <= 254 ==> v1_items(s, p, items) == v1_items(s, p + 1, items),
        p < s.len() && s[p] == 1 && items.0.dom().len() >= 32 ==> v1_items(s, p, items).0 == Err::<Items, AdsErrorView>(
            AdsErrorView::ParseError("Too many arguments: "@ + dec(items.0.dom().len() + 1) + " exceeds maximum 32"@),
        ),
        p < s.len() && s[p] == 2 && items.1.dom().len() >= 64 ==> v1_items(s, p, items).0 == Err::<Items, AdsErrorView>(
            AdsErrorView::ParseError(
                "Too many context variables: "@ + dec(items.1.dom().len() + 1) + " exceeds maximum 64"@,
            ),
        ),
{
}

// The second format.

/// A level of the second format is one byte; one that is none is an error that names it.
pub proof fn law_second_levels_are_bytes(s: Seq<u8>, p: int, n: u16, level: u8, now: Timestamp)
    requires
        stands(s, p, seq![2u8] + (le16(n) + seq![level])),
    ensures
        level > 5 ==> (v2_head(s, p, now).0 matches Err(AdsErrorView::ParseError(text)) && text
            == "Invalid log level: "@ + dec(level as nat)),
        level > 5 ==> v2_entry(s, p, now).0 is Err,
{
    lemma_stands_split(s, p, seq![2u8], le16(n) + seq![level]);
    lemma_stands_split(s, p + 1, le16(n), seq![level]);
    lemma_byte_read(s, p, 2);
    lemma_word_read(s, p + 1, n);
    lemma_byte_read(s, p + 3, level);
}

/// An entry of the second format starts with 2, a registration with 3 and a span with 5; anything
/// else in that place is an error that names it.
pub proof fn law_messages_start_with_their_number(s: Seq<u8>, p: int, b: u8)
    requires
        stands(s, p, seq![b]),
    ensures
        b != 2 ==> v2_prefix(s, p).0 == Err::<u16, AdsErrorView>(AdsErrorView::InvalidVersion(b)),
        b != 3 ==> registration(s, p).0 == Err::<RegistrationMessageView, AdsErrorView>(
            AdsErrorView::ParseError("Invalid registration type: "@ + dec(b as nat)),
        ),
        b != 5 ==> span_prefix(s, p).0 == Err::<u16, AdsErrorView>(
            AdsErrorView::ParseError("Invalid span type: "@ + dec(b as nat)),
        ),
{
    lemma_byte_read(s, p, b);
}

/// An entry of the second format with more than 32 arguments cannot be read.
pub proof fn law_too_many_arguments_are_refused(s: Seq<u8>, p: int, n: nat)
    requires
        n > 32,
    ensures
        v2_arguments(s, p, n, 1, Map::empty()).0 is Err,
{
    lemma_too_many_arguments(s, p, n, 1, Map::empty());
}

proof fn lemma_too_many_arguments(s: Seq<u8>, p: int, n: nat, next: int, found: Map<usize, JsonScalarView>)
    requires
        1 <= next <= 33,
        n + next - 1 > 32,
        found.dom().finite(),
        found.dom().len() == next - 1,
        forall|k: usize| #[trigger] found.dom().contains(k) ==> k < next,
    ensures
        v2_arguments(s, p, n, next, found).0 is Err,
    decreases n,
{
    if n > 0 && found.dom().len() < 32 {
        match crate::parser::short_value(s, p) {
            (Ok(v), q) => {
                let more = found.insert(next as usize, v);
                assert(more.dom() =~= found.dom().insert(next as usize));
                lemma_too_many_arguments(s, q, (n - 1) as nat, next + 1, more);
            },
            (Err(_), _) => {},
        }
    }
}

/// No further scope is read once 64 properties came before it.
pub proof fn law_too_many_properties_are_refused(
    s: Seq<u8>,
    p: int,
    n: nat,
    count: int,
    found: Map<Seq<char>, JsonScalarView>,
)
    requires
        n > 0,
        count >= 64,
    ensures
        v2_scopes(s, p, n, count, found).0 == Err::<Map<Seq<char>, JsonScalarView>, AdsErrorView>(
            AdsErrorView::ParseError("Too many context variables"@),
        ),
{
}

// Spans.

/// A kind or a status of a span that is none is an error that names it.
pub proof fn law_span_kinds_are_checked(s: Seq<u8>, p: int, kind: u8, status: u8)
    requires
        stands(s, p, seq![kind] + seq![status]),
    ensures
        kind > 4 ==> span_kinds(s, p).0 == Err::<(SpanKind, SpanStatusCode), AdsErrorView>(
            AdsErrorView::ParseError("Invalid span kind: "@ + dec(kind as nat)),
        ),
        kind <= 4 && status > 2 ==> span_kinds(s, p).0 == Err::<(SpanKind, SpanStatusCode), AdsErrorView>(
            AdsErrorView::ParseError("Invalid span status code: "@ + dec(status as nat)),
        ),
        kind <= 4 && status <= 2 ==> span_kinds(s, p).0 is Ok,
{
    lemma_stands_split(s, p, seq![kind], seq![status]);
    lemma_byte_read(s, p, kind);
    lemma_byte_read(s, p + 1, status);
}

/// A span has at most 128 events and 64 attributes, and an event at most 64 attributes.
pub proof fn law_spans_are_limited(s: Seq<u8>, p: int, now: Timestamp)
    ensures
        span_counts(s, p).0 matches Ok((_, _, events, attributes)) ==> events <= 128 && attributes <= 64,
        task_counts(s, p).0 matches Ok((_, _, events, attributes)) ==> (events <= 128 && attributes <= 64
            ==> span_counts(s, p) == task_counts(s, p)),
        task_counts(s, p).0 matches Ok((_, _, events, attributes)) ==> (events > 128 ==> span_counts(s, p).0 == Err::<
            (u8, u32, u8, u8),
            AdsErrorView,
        >(AdsErrorView::ParseError("Too many span events: "@ + dec(events as nat) + " exceeds maximum 128"@))),
        task_counts(s, p).0 matches Ok((_, _, events, attributes)) ==> (events <= 128 && attributes > 64
            ==> span_counts(s, p).0 == Err::<(u8, u32, u8, u8), AdsErrorView>(
            AdsErrorView::ParseError("Too many span attributes: "@ + dec(attributes as nat) + " exceeds maximum 64"@),
        )),
{
}

/// An event that says that it has more than 64 attributes cannot be read.
pub proof fn law_events_are_limited(s: Seq<u8>, p: int, name: Seq<char>, clock: Seq<u8>, n: u8, now: Timestamp)
    requires
        fits(name),
        clock.len() == 8,
        stands(s, p, text_bytes(name) + (clock + seq![n])),
        n > 64,
    ensures
        span_event(s, p, now).0 matches Err(AdsErrorView::ParseError(text)) && text == "Too many event attributes: "@
            + dec(n as nat) + " exceeds maximum 64"@,
{
    let a = text_bytes(name);
    lemma_stands_split(s, p, a, clock + seq![n]);
    lemma_stands_split(s, p + a.len(), clock, seq![n]);
    lemma_text_read(s, p, name);
    lemma_byte_read(s, p + a.len() as int + 8, n);
}

// Parts.

/// A number that is cut short is not read, and the cursor stays: the error says how many bytes it
/// takes and how many there are.
pub proof fn law_cut_numbers_are_incomplete(s: Seq<u8>, p: int, now: Timestamp)
    requires
        0 <= p <= s.len(),
    ensures
        s.len() < p + 1 ==> byte(s, p) == (cut::<u8>(1, s.len() - p), p),
        s.len() < p + 2 ==> word(s, p) == (cut::<u16>(2, s.len() - p), p),
        s.len() < p + 2 ==> int16(s, p) == (cut::<i16>(2, s.len() - p), p),
        s.len() < p + 4 ==> dword(s, p) == (cut::<u32>(4, s.len() - p), p),
        s.len() < p + 4 ==> int32(s, p) == (cut::<i32>(4, s.len() - p), p),
        s.len() < p + 8 ==> qword(s, p) == (cut::<u64>(8, s.len() - p), p),
        s.len() < p + 8 ==> time(s, p, now) == (cut::<Timestamp>(8, s.len() - p), p),
{
}

/// The error of a part that takes `expected` bytes and has `got`.
pub open spec fn cut<T>(expected: int, got: int) -> Result<T, AdsErrorView> {
    Err(AdsErrorView::IncompleteMessage { expected, got })
}

/// A text whose bytes are not UTF-8 is an error, and the cursor stands behind it. One that is cut
/// short is incomplete.
pub proof fn law_bad_texts_are_errors(s: Seq<u8>, p: int, n: u8, b: Seq<u8>)
    requires
        stands(s, p, seq![n] + b),
    ensures
        b.len() == n && !valid_utf8(b) ==> string(s, p).0 is Err && string(s, p).0->Err_0 is InvalidStringEncoding
            && string(s, p).1 == p + 1 + n,
        b.len() < n && p + 1 + b.len() == s.len() ==> string(s, p).0 == cut::<Seq<char>>(n as int, b.len() as int),
{
    lemma_stands_split(s, p, seq![n], b);
    lemma_byte_read(s, p, n);
}

// Buffers.

/// A buffer that starts with an entry of the first format, or with a span, that cannot be read is
/// refused with that error. One that starts with a registration that cannot be read, or with no
/// message at all, holds nothing. A buffer of more than a mebibyte is refused whatever it holds.
pub proof fn law_first_messages_decide(s: Seq<u8>, now: Timestamp)
    ensures
        s.len() > 1_048_576 ==> parse_outcome(s, now) == Err::<ParseResultView, AdsErrorView>(
            AdsErrorView::ParseError("Message size "@ + dec(s.len()) + " exceeds maximum 1048576"@),
        ),
        s.len() > 1_048_576 ==> entry_outcome(s, now) == Err::<AdsLogEntryView, AdsErrorView>(
            AdsErrorView::ParseError("Message size "@ + dec(s.len()) + " exceeds maximum 1048576"@),
        ),
        0 < s.len() <= 1_048_576 && s[0] == 1 && v1_entry(s, 0, now).0 is Err ==> parse_outcome(s, now) == Err::<
            ParseResultView,
            AdsErrorView,
        >(v1_entry(s, 0, now).0->Err_0),
        0 < s.len() <= 1_048_576 && s[0] == 5 && span_entry(s, 0, now).0 is Err ==> parse_outcome(s, now) == Err::<
            ParseResultView,
            AdsErrorView,
        >(span_entry(s, 0, now).0->Err_0),
        0 < s.len() <= 1_048_576 && s[0] == 3 && registration(s, 0).0 is Err ==> parse_outcome(s, now) == Ok::<
            ParseResultView,
            AdsErrorView,
        >(ParseResultView::nothing()),
        s.len() == 0 ==> parse_outcome(s, now) == Ok::<ParseResultView, AdsErrorView>(ParseResultView::nothing()),
        0 < s.len() <= 1_048_576 && s[0] != 1 && s[0] != 2 && s[0] != 3 && s[0] != 5 ==> parse_outcome(s, now) == Ok::<
            ParseResultView,
            AdsErrorView,
        >(ParseResultView::nothing()),
        ParseResultView::nothing().entries.len() == 0,
        ParseResultView::nothing().registrations.len() == 0,
        ParseResultView::nothing().spans.len() == 0,
        ParseResultView::nothing().metrics.len() == 0,
        ParseResultView::nothing().trace_events.len() == 0,
{
}

/// A message that cannot be read ends the buffer once an entry or a registration was found before
/// it: what was found so far is kept, and nothing of the rest. A span that cannot be read does so
/// once a span was found, too.
pub proof fn law_later_messages_do_not_undo(s: Seq<u8>, p: int, now: Timestamp, found: ParseResultView)
    requires
        0 <= p < s.len(),
        found.entries.len() > 0 || found.registrations.len() > 0 || (s[p] == 5 && found.spans.len() > 0),
        s[p] == 1 ==> v1_entry(s, p, now).0 is Err,
        s[p] == 2 ==> v2_entry(s, p, now).0 is Err,
        s[p] == 3 ==> registration(s, p).0 is Err,
        s[p] == 5 ==> span_entry(s, p, now).0 is Err,
    ensures
        messages(s, p, now, found) == Ok::<ParseResultView, AdsErrorView>(found),
{
}

/// An entry of the second format that cannot be read, with no entry and no registration before it,
/// is passed over: by the length that stands one byte behind the place where its reading stopped,
/// and three bytes more. Where fewer than three bytes are left there, the buffer ends.
pub proof fn law_broken_second_entries_are_passed_over(s: Seq<u8>, p: int, now: Timestamp, found: ParseResultView)
    requires
        0 <= p < s.len(),
        s[p] == 2,
        v2_entry(s, p, now).0 is Err,
        found.entries.len() == 0,
        found.registrations.len() == 0,
    ensures
        ({
            let q = v2_entry(s, p, now).1;
            if s.len() >= q + 3 {
                messages(s, p, now, found) == messages(s, q + u16_at(s, q + 1) + 3, now, found)
            } else {
                messages(s, p, now, found) == Ok::<ParseResultView, AdsErrorView>(found)
            }
        }),
{
    reveal(read_on);
    reveal(second_read);
    lemma_broken_second(s, p, now, found, second_read(s, p, now).0->Err_0, second_read(s, p, now).1);
}

#[verifier::opaque]
spec fn read_on(s: Seq<u8>, p: int, now: Timestamp, found: ParseResultView) -> Result<ParseResultView, AdsErrorView> {
    messages(s, p, now, found)
}

#[verifier::opaque]
spec fn second_read(s: Seq<u8>, p: int, now: Timestamp) -> Step<AdsLogEntryView> {
    v2_entry(s, p, now)
}

proof fn lemma_broken_second(s: Seq<u8>, p: int, now: Timestamp, found: ParseResultView, e: AdsErrorView, q: int)
    requires
        0 <= p < s.len(),
        s[p] == 2,
        second_read(s, p, now) == (Err::<AdsLogEntryView, AdsErrorView>(e), q),
        found.entries.len() == 0,
        found.registrations.len() == 0,
    ensures
        read_on(s, p, now, found) == (if s.len() >= q + 3 {
            read_on(s, q + u16_at(s, q + 1) + 3, now, found)
        } else {
            Ok::<ParseResultView, AdsErrorView>(found)
        }),
{
    assert(v2_entry(s, p, now) == (Err::<AdsLogEntryView, AdsErrorView>(e), q)) by {
        reveal(second_read);
    }
    reveal(read_on);
}

} // verus!
