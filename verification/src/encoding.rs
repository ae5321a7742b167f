//! How log, registration and span messages stand in a buffer.
use vstd::prelude::*;
use vstd::utf8::{encode_utf8, encode_utf8_decode_utf8, encode_utf8_valid_utf8};

use crate::error::AdsErrorView;
use crate::models::JsonScalarView;
use crate::parser::short_value;
use crate::reader::{byte, dword, int16, int32, qword, string, time, word};
use crate::time::{Timestamp, FILETIME_EPOCH_DIFF};
use crate::value::{tagged_value, typed_value, EnumTag};
use crate::wire::{le16, le32};

verus! {

broadcast use crate::wire::group_wire;

/// `b` stands in `s` at `p`.
pub open spec fn stands(s: Seq<u8>, p: int, b: Seq<u8>) -> bool {
    0 <= p && p + b.len() <= s.len() && s.subrange(p, p + b.len()) == b
}

pub proof fn lemma_stands_split(s: Seq<u8>, p: int, a: Seq<u8>, b: Seq<u8>)
    requires
        stands(s, p, a + b),
    ensures
        stands(s, p, a),
        stands(s, p + a.len(), b),
{
    let w = s.subrange(p, p + (a + b).len());
    assert(s.subrange(p, p + a.len()) =~= w.take(a.len() as int));
    assert((a + b).take(a.len() as int) =~= a);
    assert(s.subrange(p + a.len(), p + a.len() + b.len()) =~= w.skip(a.len() as int));
    assert((a + b).skip(a.len() as int) =~= b);
}

pub proof fn lemma_stands_between(before: Seq<u8>, b: Seq<u8>, after: Seq<u8>)
    ensures
        stands(before + b + after, before.len() as int, b),
{
    let s = before + b + after;
    assert(s.subrange(before.len() as int, before.len() as int + b.len()) =~= b);
}

// Numbers, texts and times.

/// The eight bytes of `x`, low byte first.
pub open spec fn le64(x: u64) -> Seq<u8> {
    le32((x % 0x1_0000_0000) as u32) + le32((x / 0x1_0000_0000) as u32)
}

/// The word whose two's complement reading is `n`.
pub open spec fn unsigned32(n: i32) -> u32 {
    if n >= 0 { n as u32 } else { (n + 0x1_0000_0000) as u32 }
}

/// The word whose two's complement reading is `n`.
pub open spec fn unsigned64(n: i64) -> u64 {
    if n >= 0 { n as u64 } else { (n + 0x1_0000_0000_0000_0000) as u64 }
}

/// A text as it stands in a message: one byte for its length, then its bytes.
pub open spec fn text_bytes(t: Seq<char>) -> Seq<u8> {
    seq![encode_utf8(t).len() as u8] + encode_utf8(t)
}

/// The length of a text fits its byte.
pub open spec fn fits(t: Seq<char>) -> bool {
    encode_utf8(t).len() <= 255
}

/// The FILETIME of an instant.
pub open spec fn ticks(t: Timestamp) -> int {
    FILETIME_EPOCH_DIFF + t.secs * 10_000_000 + t.nanos / 100
}

/// An instant that a FILETIME can stand for.
pub open spec fn timely(t: Timestamp) -> bool {
    0 <= t.secs && t.nanos < 1_000_000_000 && t.nanos % 100 == 0 && ticks(t) <= u64::MAX
}

pub open spec fn time_bytes(t: Timestamp) -> Seq<u8> {
    le64(ticks(t) as u64)
}

pub proof fn lemma_byte_read(s: Seq<u8>, p: int, b: u8)
    requires
        stands(s, p, seq![b]),
    ensures
        byte(s, p) == (Ok::<u8, AdsErrorView>(b), p + 1),
        s[p] == b,
{
    assert(s.subrange(p, p + 1)[0] == s[p]);
}

pub proof fn lemma_word_read(s: Seq<u8>, p: int, x: u16)
    requires
        stands(s, p, le16(x)),
    ensures
        word(s, p) == (Ok::<u16, AdsErrorView>(x), p + 2),
        x < 0x8000 ==> int16(s, p) == (Ok::<i16, AdsErrorView>(x as i16), p + 2),
{
    crate::wire::law_le16_read(x);
    crate::wire::lemma_window(s, p, p + 2, 0);
}

pub proof fn lemma_dword_read(s: Seq<u8>, p: int, x: u32)
    requires
        stands(s, p, le32(x)),
    ensures
        dword(s, p) == (Ok::<u32, AdsErrorView>(x), p + 4),
        crate::wire::u32_at(s, p) == x,
{
    crate::wire::law_le32_read(x);
    crate::wire::lemma_window(s, p, p + 4, 0);
}

pub proof fn lemma_int32_read(s: Seq<u8>, p: int, n: i32)
    requires
        stands(s, p, le32(unsigned32(n))),
    ensures
        int32(s, p) == (Ok::<i32, AdsErrorView>(n), p + 4),
{
    lemma_dword_read(s, p, unsigned32(n));
}

pub proof fn lemma_qword_read(s: Seq<u8>, p: int, x: u64)
    requires
        stands(s, p, le64(x)),
    ensures
        qword(s, p) == (Ok::<u64, AdsErrorView>(x), p + 8),
        crate::wire::u64_at(s, p) == x,
{
    let low = (x % 0x1_0000_0000) as u32;
    let high = (x / 0x1_0000_0000) as u32;
    lemma_stands_split(s, p, le32(low), le32(high));
    lemma_dword_read(s, p, low);
    lemma_dword_read(s, p + 4, high);
}

pub proof fn lemma_text_read(s: Seq<u8>, p: int, t: Seq<char>)
    requires
        stands(s, p, text_bytes(t)),
        fits(t),
    ensures
        string(s, p) == (Ok::<Seq<char>, AdsErrorView>(t), p + text_bytes(t).len() as int),
{
    let b = encode_utf8(t);
    lemma_stands_split(s, p, seq![b.len() as u8], b);
    lemma_byte_read(s, p, b.len() as u8);
    encode_utf8_valid_utf8(t);
    encode_utf8_decode_utf8(t);
}

pub proof fn lemma_time_read(s: Seq<u8>, p: int, t: Timestamp, now: Timestamp)
    requires
        stands(s, p, time_bytes(t)),
        timely(t),
    ensures
        time(s, p, now) == (Ok::<Timestamp, AdsErrorView>(t), p + 8),
{
    lemma_qword_read(s, p, ticks(t) as u64);
    let unix = t.secs * 10_000_000 + t.nanos / 100;
    assert(unix / 10_000_000 == t.secs) by (nonlinear_arith)
        requires
            unix == t.secs * 10_000_000 + t.nanos / 100,
            0 <= t.nanos / 100 < 10_000_000,
    ;
    assert(unix % 10_000_000 == t.nanos / 100);
}

// Values.

/// The number of a value's type.
pub open spec fn value_kind(v: JsonScalarView) -> u8 {
    match v {
        JsonScalarView::Null => 0,
        JsonScalarView::Real(_) => 4,
        JsonScalarView::Lreal(_) => 5,
        JsonScalarView::Text(_) => 12,
        JsonScalarView::Bool(_) => 13,
        JsonScalarView::Unsigned(_) => 15,
        JsonScalarView::Negative(_) => 17,
    }
}

/// A value without its type.
pub open spec fn value_bytes(v: JsonScalarView) -> Seq<u8> {
    match v {
        JsonScalarView::Null => Seq::empty(),
        JsonScalarView::Real(x) => le32(x.0),
        JsonScalarView::Lreal(x) => le64(x.0),
        JsonScalarView::Text(t) => text_bytes(t),
        JsonScalarView::Bool(b) => seq![if b { 1u8 } else { 0u8 }],
        JsonScalarView::Unsigned(n) => le64(n),
        JsonScalarView::Negative(n) => le64(unsigned64(n)),
    }
}

/// A value that a message can hold.
pub open spec fn sendable(v: JsonScalarView) -> bool {
    match v {
        JsonScalarView::Real(x) => x.finite(),
        JsonScalarView::Lreal(x) => x.finite(),
        JsonScalarView::Text(t) => fits(t),
        JsonScalarView::Negative(n) => n < 0,
        _ => true,
    }
}

pub proof fn lemma_value_read(s: Seq<u8>, p: int, v: JsonScalarView, tag: EnumTag)
    requires
        stands(s, p, value_bytes(v)),
        sendable(v),
    ensures
        typed_value(s, p, value_kind(v) as int, tag) == (
            Ok::<JsonScalarView, AdsErrorView>(v),
            p + value_bytes(v).len() as int,
        ),
{
    reveal(typed_value);
    match v {
        JsonScalarView::Null => {},
        JsonScalarView::Real(x) => lemma_dword_read(s, p, x.0),
        JsonScalarView::Lreal(x) => lemma_qword_read(s, p, x.0),
        JsonScalarView::Text(t) => lemma_text_read(s, p, t),
        JsonScalarView::Bool(b) => lemma_byte_read(s, p, if b { 1u8 } else { 0u8 }),
        JsonScalarView::Unsigned(n) => lemma_qword_read(s, p, n),
        JsonScalarView::Negative(n) => lemma_qword_read(s, p, unsigned64(n)),
    }
}

/// A value with its 16-bit type before it.
pub open spec fn tagged_bytes(v: JsonScalarView) -> Seq<u8> {
    le16(value_kind(v) as u16) + value_bytes(v)
}

pub proof fn lemma_tagged_read(s: Seq<u8>, p: int, v: JsonScalarView)
    requires
        stands(s, p, tagged_bytes(v)),
        sendable(v),
    ensures
        tagged_value(s, p) == (Ok::<JsonScalarView, AdsErrorView>(v), p + tagged_bytes(v).len() as int),
{
    lemma_stands_split(s, p, le16(value_kind(v) as u16), value_bytes(v));
    lemma_word_read(s, p, value_kind(v) as u16);
    lemma_value_read(s, p + 2, v, EnumTag::Word);
}

/// A value with its one-byte type before it.
pub open spec fn short_bytes(v: JsonScalarView) -> Seq<u8> {
    seq![value_kind(v)] + value_bytes(v)
}

pub proof fn lemma_short_read(s: Seq<u8>, p: int, v: JsonScalarView)
    requires
        stands(s, p, short_bytes(v)),
        sendable(v),
    ensures
        short_value(s, p) == (Ok::<JsonScalarView, AdsErrorView>(v), p + short_bytes(v).len() as int),
{
    lemma_stands_split(s, p, seq![value_kind(v)], value_bytes(v));
    lemma_byte_read(s, p, value_kind(v));
    lemma_value_read(s, p + 1, v, EnumTag::Byte);
}

} // verus!
