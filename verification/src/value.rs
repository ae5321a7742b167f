//! Typed PLC values on the wire and the JSON scalars they become.
use vstd::prelude::*;

use crate::error::AdsError;
use crate::models::{JsonScalar, JsonScalarView, Lreal, Real};
use crate::reader::{byte, bytes, dword, int16, int32, qword, string, took, word, BytesReader, Step};
use crate::text::{dec, lossy_utf16, push_dec, push_padded, text_from_utf16_lossy, zero_padded};
use crate::time::{format_utc, utc_format};
use crate::wire::{get_u16, signed8, to_signed64, to_signed8, signed64, u16_at};

verus! {

/// `n` in decimal and then `unit`; nothing for zero.
pub open spec fn part(n: int, unit: Seq<char>) -> Seq<char> {
    if n > 0 { dec(n as nat) + unit } else { Seq::<char>::empty() }
}

/// An IEC `TIME` literal for a number of milliseconds.
pub open spec fn time_text(ms: u32) -> Seq<char> {
    let d = ms as int / 86_400_000;
    let h = ms as int % 86_400_000 / 3_600_000;
    let m = ms as int % 3_600_000 / 60_000;
    let s = ms as int % 60_000 / 1000;
    let f = ms as int % 1000;
    "T#"@ + part(d, "d"@) + part(h, "h"@) + part(m, "m"@) + (if s > 0 || ms == 0 {
        dec(s as nat) + "s"@
    } else {
        Seq::<char>::empty()
    }) + part(f, "ms"@)
}

/// An IEC `LTIME` literal for a number of nanoseconds.
pub open spec fn ltime_text(ns: u64) -> Seq<char> {
    if ns == 0 {
        "LTIME#"@ + "0s"@
    } else {
        "LTIME#"@ + part(ns as int / 86_400_000_000_000, "d"@) + part(
            ns as int % 86_400_000_000_000 / 3_600_000_000_000,
            "h"@,
        ) + part(ns as int % 3_600_000_000_000 / 60_000_000_000, "m"@) + part(
            ns as int % 60_000_000_000 / 1_000_000_000,
            "s"@,
        ) + part(ns as int % 1_000_000_000 / 1_000_000, "ms"@) + part(ns as int % 1_000_000 / 1000, "us"@) + part(
            ns as int % 1000,
            "ns"@,
        )
    }
}

/// An IEC `TIME_OF_DAY` literal for milliseconds since midnight.
pub open spec fn time_of_day_text(ms: u32) -> Seq<char> {
    "TOD#"@ + zero_padded(dec(ms as nat / 3_600_000), 2) + ":"@ + zero_padded(dec(ms as nat % 3_600_000 / 60_000), 2)
        + ":"@ + zero_padded(dec(ms as nat % 60_000 / 1000), 2) + (if ms % 1000 > 0 {
        "."@ + zero_padded(dec(ms as nat % 1000), 3)
    } else {
        Seq::<char>::empty()
    })
}

/// The 16-bit units that `b` holds.
pub open spec fn units(b: Seq<u8>) -> Seq<u16> {
    Seq::new(b.len() / 2, |i: int| u16_at(b, 2 * i))
}

/// How the type of an enumeration's value is written.
#[derive(Clone, Copy, PartialEq, Eq, Structural)]
pub enum EnumTag {
    Byte,
    Word,
}

/// The type under an enumeration.
pub open spec fn enum_type(s: Seq<u8>, pos: int, tag: EnumTag) -> Step<int> {
    match tag {
        EnumTag::Byte => match byte(s, pos) {
            (Err(e), p) => (Err(e), p),
            (Ok(t), p) => (Ok(t as int), p),
        },
        EnumTag::Word => match int16(s, pos) {
            (Err(e), p) => (Err(e), p),
            (Ok(t), p) => (Ok(t as int), p),
        },
    }
}

/// An unsigned integer of the widths that enumerations have; `null` for another type.
pub open spec fn unsigned_value(s: Seq<u8>, pos: int, kind: int) -> Step<JsonScalarView> {
    if kind == 1 || kind == 9 {
        match byte(s, pos) {
            (Err(e), p) => (Err(e), p),
            (Ok(n), p) => (Ok(JsonScalarView::Unsigned(n as u64)), p),
        }
    } else if kind == 2 || kind == 10 {
        match word(s, pos) {
            (Err(e), p) => (Err(e), p),
            (Ok(n), p) => (Ok(JsonScalarView::Unsigned(n as u64)), p),
        }
    } else if kind == 3 || kind == 11 {
        match dword(s, pos) {
            (Err(e), p) => (Err(e), p),
            (Ok(n), p) => (Ok(JsonScalarView::Unsigned(n as u64)), p),
        }
    } else if kind == 15 {
        match qword(s, pos) {
            (Err(e), p) => (Err(e), p),
            (Ok(n), p) => (Ok(JsonScalarView::Unsigned(n)), p),
        }
    } else {
        (Ok(JsonScalarView::Null), pos)
    }
}

/// A signed integer, a number with a fraction, a truth value or a string.
pub open spec fn plain_value(s: Seq<u8>, pos: int, kind: int) -> Step<JsonScalarView> {
    if kind == 4 {
        match dword(s, pos) {
            (Err(e), p) => (Err(e), p),
            (Ok(n), p) => (Ok(JsonScalarView::of_real(Real(n))), p),
        }
    } else if kind == 5 {
        match qword(s, pos) {
            (Err(e), p) => (Err(e), p),
            (Ok(n), p) => (Ok(JsonScalarView::of_lreal(Lreal(n))), p),
        }
    } else if kind == 6 {
        match byte(s, pos) {
            (Err(e), p) => (Err(e), p),
            (Ok(n), p) => (Ok(JsonScalarView::of_int(signed8(n) as i64)), p),
        }
    } else if kind == 7 {
        match int16(s, pos) {
            (Err(e), p) => (Err(e), p),
            (Ok(n), p) => (Ok(JsonScalarView::of_int(n as i64)), p),
        }
    } else if kind == 8 {
        match int32(s, pos) {
            (Err(e), p) => (Err(e), p),
            (Ok(n), p) => (Ok(JsonScalarView::of_int(n as i64)), p),
        }
    } else if kind == 17 {
        match qword(s, pos) {
            (Err(e), p) => (Err(e), p),
            (Ok(n), p) => (Ok(JsonScalarView::of_int(signed64(n))), p),
        }
    } else if kind == 12 {
        match string(s, pos) {
            (Err(e), p) => (Err(e), p),
            (Ok(t), p) => (Ok(JsonScalarView::Text(t)), p),
        }
    } else if kind == 13 {
        match byte(s, pos) {
            (Err(e), p) => (Err(e), p),
            (Ok(n), p) => (Ok(JsonScalarView::Bool(n != 0)), p),
        }
    } else {
        (Ok(JsonScalarView::Null), pos)
    }
}

/// A time, a date, an enumeration or a wide string.
pub open spec fn extended_value(s: Seq<u8>, pos: int, kind: int, tag: EnumTag) -> Step<JsonScalarView> {
    if kind == 20000 {
        match dword(s, pos) {
            (Err(e), p) => (Err(e), p),
            (Ok(ms), p) => (Ok(JsonScalarView::Text(time_text(ms))), p),
        }
    } else if kind == 20001 {
        match qword(s, pos) {
            (Err(e), p) => (Err(e), p),
            (Ok(n), p) => (Ok(JsonScalarView::Text(ltime_text((n * 100 % 0x1_0000_0000_0000_0000) as u64))), p),
        }
    } else if kind == 20002 {
        match dword(s, pos) {
            (Err(e), p) => (Err(e), p),
            (Ok(n), p) => (Ok(JsonScalarView::Text("D#"@ + utc_format(n as i64, "%Y-%-m-%-d"@))), p),
        }
    } else if kind == 20003 {
        match dword(s, pos) {
            (Err(e), p) => (Err(e), p),
            (Ok(n), p) => (Ok(JsonScalarView::Text("DT#"@ + utc_format(n as i64, "%Y-%-m-%-d-%H:%M:%S"@))), p),
        }
    } else if kind == 20004 {
        match dword(s, pos) {
            (Err(e), p) => (Err(e), p),
            (Ok(ms), p) => (Ok(JsonScalarView::Text(time_of_day_text(ms))), p),
        }
    } else if kind == 20005 {
        match enum_type(s, pos, tag) {
            (Err(e), p) => (Err(e), p),
            (Ok(t), p) => unsigned_value(s, p, t),
        }
    } else if kind == 20006 {
        match byte(s, pos) {
            (Err(e), p) => (Err(e), p),
            (Ok(n), p) => match bytes(s, p, 2 * n) {
                (Err(e), q) => (Err(e), q),
                (Ok(b), q) => (Ok(JsonScalarView::Text(lossy_utf16(units(b)))), q),
            },
        }
    } else {
        (Ok(JsonScalarView::Null), pos)
    }
}

/// A value of the type `kind`. Type 0 and types that are not known have no bytes: `null`.
#[verifier::opaque]
pub open spec fn typed_value(s: Seq<u8>, pos: int, kind: int, tag: EnumTag) -> Step<JsonScalarView> {
    if kind == 1 || kind == 9 || kind == 2 || kind == 10 || kind == 3 || kind == 11 || kind == 15 {
        unsigned_value(s, pos, kind)
    } else if kind < 20000 {
        plain_value(s, pos, kind)
    } else {
        extended_value(s, pos, kind, tag)
    }
}

/// A value is never read backwards, nor past the end.
pub broadcast proof fn lemma_typed_value_forward(s: Seq<u8>, pos: int, kind: int, tag: EnumTag)
    ensures
        (#[trigger] typed_value(s, pos, kind, tag)).1 >= pos,
        pos <= s.len() ==> typed_value(s, pos, kind, tag).1 <= s.len(),
{
    reveal(typed_value);
}

/// A value with its 16-bit type before it.
pub open spec fn tagged_value(s: Seq<u8>, pos: int) -> Step<JsonScalarView> {
    match int16(s, pos) {
        (Err(e), p) => (Err(e), p),
        (Ok(kind), p) => typed_value(s, p, kind as int, EnumTag::Word),
    }
}

/// The type that a one-byte type of the second format stands for.
pub open spec fn remapped(kind: int) -> int {
    if 100 <= kind <= 106 { kind - 100 + 20000 } else { kind }
}

fn push_part(out: &mut String, n: u64, unit: &str)
    ensures
        final(out)@ == old(out)@ + part(n as int, unit@),
{
    if n > 0 {
        push_dec(out, n);
        out.append(unit);
        assert(out@ =~= old(out)@ + part(n as int, unit@));
    } else {
        assert(out@ =~= old(out)@ + part(n as int, unit@));
    }
}

/// The `TIME` literal of `ms` milliseconds.
pub fn time_literal(ms: u32) -> (r: String)
    ensures
        r@ == time_text(ms),
{
    let d: u32 = ms / 86_400_000;
    let h: u32 = (ms % 86_400_000) / 3_600_000;
    let m: u32 = (ms % 3_600_000) / 60_000;
    let s: u32 = (ms % 60_000) / 1000;
    let f: u32 = ms % 1000;
    let mut r = String::from_str("T#");
    push_part(&mut r, d as u64, "d");
    push_part(&mut r, h as u64, "h");
    push_part(&mut r, m as u64, "m");
    let ghost so_far = r@;
    assert((d == 0 && h == 0 && m == 0 && s == 0 && f == 0) == (ms == 0));
    if s > 0 || (d == 0 && h == 0 && m == 0 && f == 0) {
        push_dec(&mut r, s as u64);
        r.append("s");
        assert(r@ =~= so_far + (dec(s as nat) + "s"@));
    } else {
        assert(r@ =~= so_far + Seq::<char>::empty());
    }
    push_part(&mut r, f as u64, "ms");
    r
}

/// The `LTIME` literal of `ns` nanoseconds.
pub fn ltime_literal(ns: u64) -> (r: String)
    ensures
        r@ == ltime_text(ns),
{
    if ns == 0 {
        return String::from_str("LTIME#").concat("0s");
    }
    let mut r = String::from_str("LTIME#");
    push_part(&mut r, ns / 86_400_000_000_000, "d");
    push_part(&mut r, (ns % 86_400_000_000_000) / 3_600_000_000_000, "h");
    push_part(&mut r, (ns % 3_600_000_000_000) / 60_000_000_000, "m");
    push_part(&mut r, (ns % 60_000_000_000) / 1_000_000_000, "s");
    push_part(&mut r, (ns % 1_000_000_000) / 1_000_000, "ms");
    push_part(&mut r, (ns % 1_000_000) / 1000, "us");
    push_part(&mut r, ns % 1000, "ns");
    r
}

/// The `TIME_OF_DAY` literal of `ms` milliseconds since midnight.
pub fn time_of_day_literal(ms: u32) -> (r: String)
    ensures
        r@ == time_of_day_text(ms),
{
    let mut r = String::from_str("TOD#");
    push_padded(&mut r, (ms / 3_600_000) as u64, 2);
    r.append(":");
    push_padded(&mut r, ((ms % 3_600_000) / 60_000) as u64, 2);
    r.append(":");
    push_padded(&mut r, ((ms % 60_000) / 1000) as u64, 2);
    let ghost so_far = r@;
    if ms % 1000 > 0 {
        r.append(".");
        push_padded(&mut r, (ms % 1000) as u64, 3);
        assert(r@ =~= so_far + ("."@ + zero_padded(dec(ms as nat % 1000), 3)));
    } else {
        assert(r@ =~= so_far + Seq::<char>::empty());
    }
    r
}

/// The 16-bit units that `b` holds.
pub fn units_of(b: &[u8]) -> (r: Vec<u16>)
    ensures
        r@ == units(b@),
{
    let mut r: Vec<u16> = Vec::new();
    let mut i: usize = 0;
    let n: usize = b.len() / 2;
    while i < n
        invariant
            i <= n,
            n == b@.len() / 2,
            r@ == units(b@).subrange(0, i as int),
        decreases n - i,
    {
        assert(2 * i + 2 <= b.len());
        r.push(get_u16(b, 2 * i));
        i = i + 1;
        assert(r@ =~= units(b@).subrange(0, i as int));
    }
    assert(r@ =~= units(b@));
    r
}

pub fn remap_v2_type_id(kind: i32) -> (r: i32)
    ensures
        r == remapped(kind as int),
{
    match kind {
        100 => 20000,  // TIME
        101 => 20001,  // LTIME
        102 => 20002,  // DATE
        103 => 20003,  // DATE_AND_TIME
        104 => 20004,  // TIME_OF_DAY
        105 => 20005,  // ENUM
        106 => 20006,  // WSTRING
        other => other,
    }
}

impl<'a> BytesReader<'a> {
    fn read_unsigned(&mut self, kind: i32) -> (r: Result<JsonScalar, AdsError>)
        ensures
            took(*old(self), *final(self), r, unsigned_value(old(self).data@, old(self).pos as int, kind as int)),
    {
        match kind {
            1 | 9 => {
                let n: u8 = self.read_u8()?;
                Ok(JsonScalar::Unsigned(n as u64))
            },
            2 | 10 => {
                let n: u16 = self.read_u16()?;
                Ok(JsonScalar::Unsigned(n as u64))
            },
            3 | 11 => {
                let n: u32 = self.read_u32()?;
                Ok(JsonScalar::Unsigned(n as u64))
            },
            15 => {
                let n: u64 = self.read_u64()?;
                Ok(JsonScalar::Unsigned(n))
            },
            _ => Ok(JsonScalar::Null),
        }
    }

    fn read_plain(&mut self, kind: i32) -> (r: Result<JsonScalar, AdsError>)
        ensures
            took(*old(self), *final(self), r, plain_value(old(self).data@, old(self).pos as int, kind as int)),
    {
        match kind {
            4 => {
                let n: u32 = self.read_u32()?;
                Ok(JsonScalar::from_real(Real(n)))
            },
            5 => {
                let n: u64 = self.read_u64()?;
                Ok(JsonScalar::from_lreal(Lreal(n)))
            },
            6 => {
                let n: u8 = self.read_u8()?;
                Ok(JsonScalar::from_int(to_signed8(n) as i64))
            },
            7 => {
                let n: i16 = self.read_i16()?;
                Ok(JsonScalar::from_int(n as i64))
            },
            8 => {
                let n: i32 = self.read_i32()?;
                Ok(JsonScalar::from_int(n as i64))
            },
            17 => {
                let n: u64 = self.read_u64()?;
                Ok(JsonScalar::from_int(to_signed64(n)))
            },
            12 => {
                let t = self.read_string()?;
                Ok(JsonScalar::Text(t))
            },
            13 => {
                let n: u8 = self.read_u8()?;
                Ok(JsonScalar::Bool(n != 0))
            },
            _ => Ok(JsonScalar::Null),
        }
    }

    fn read_extended(&mut self, kind: i32, tag: EnumTag) -> (r: Result<JsonScalar, AdsError>)
        ensures
            took(
                *old(self),
                *final(self),
                r,
                extended_value(old(self).data@, old(self).pos as int, kind as int, tag),
            ),
    {
        match kind {
            20000 => {
                let ms: u32 = self.read_u32()?;
                Ok(JsonScalar::Text(time_literal(ms)))
            },
            20001 => {
                let ticks: u64 = self.read_u64()?;
                let ns: u64 = ticks.wrapping_mul(100);
                Ok(JsonScalar::Text(ltime_literal(ns)))
            },
            20002 => {
                let secs: u32 = self.read_u32()?;
                Ok(JsonScalar::Text(String::from_str("D#").concat(&format_utc(secs, "%Y-%-m-%-d"))))
            },
            20003 => {
                let secs: u32 = self.read_u32()?;
                Ok(JsonScalar::Text(String::from_str("DT#").concat(&format_utc(secs, "%Y-%-m-%-d-%H:%M:%S"))))
            },
            20004 => {
                let ms: u32 = self.read_u32()?;
                Ok(JsonScalar::Text(time_of_day_literal(ms)))
            },
            20005 => {
                let under: i32 = match tag {
                    EnumTag::Byte => self.read_u8()? as i32,
                    EnumTag::Word => self.read_i16()? as i32,
                };
                self.read_unsigned(under)
            },
            20006 => {
                let n: u8 = self.read_u8()?;
                let raw = self.read_bytes(2 * n as usize)?;
                Ok(JsonScalar::Text(text_from_utf16_lossy(&units_of(raw))))
            },
            _ => Ok(JsonScalar::Null),
        }
    }

    fn read_typed(&mut self, kind: i32, tag: EnumTag) -> (r: Result<JsonScalar, AdsError>)
        ensures
            took(
                *old(self),
                *final(self),
                r,
                typed_value(old(self).data@, old(self).pos as int, kind as int, tag),
            ),
    {
        proof {
            reveal(typed_value);
        }
        match kind {
            1 | 9 | 2 | 10 | 3 | 11 | 15 => self.read_unsigned(kind),
            _ => if kind < 20000 {
                self.read_plain(kind)
            } else {
                self.read_extended(kind, tag)
            },
        }
    }

    /// Reads a value whose 16-bit type comes before it.
    pub fn read_value(&mut self) -> (r: Result<JsonScalar, AdsError>)
        ensures
            took(*old(self), *final(self), r, tagged_value(old(self).data@, old(self).pos as int)),
    {
        let kind: i16 = self.read_i16()?;
        self.read_typed(kind as i32, EnumTag::Word)
    }

    /// Reads a value of a type that is already known.
    pub fn read_value_with_type(&mut self, kind: i32) -> (r: Result<JsonScalar, AdsError>)
        ensures
            took(
                *old(self),
                *final(self),
                r,
                typed_value(old(self).data@, old(self).pos as int, kind as int, EnumTag::Byte),
            ),
    {
        self.read_typed(kind, EnumTag::Byte)
    }
}

} // verus!
