//! What the typed values of messages mean: for each type, the bytes that write a value and the
//! scalar that they read back as.
use vstd::prelude::*;

use crate::encoding::{
    le64, lemma_byte_read, lemma_dword_read, lemma_qword_read, lemma_stands_between, lemma_stands_split,
    lemma_word_read, stands,
};
use crate::error::AdsErrorView;
use crate::models::{JsonScalarView, Lreal, Real};
use crate::parser::short_value;
use crate::text::{dec, lossy_utf16, zero_padded};
use crate::time::utc_format;
use crate::value::{
    ltime_text, tagged_value, time_of_day_text, time_text, typed_value, units, EnumTag,
};
use crate::wire::{le16, le32, u16_at};

verus! {

broadcast use crate::wire::group_wire;

/// An integer as a PLC holds it.
pub enum PlcInt {
    Byte(u8),
    Word(u16),
    Dword(u32),
    Sint(i8),
    Int(i16),
    Dint(i32),
    Usint(u8),
    Uint(u16),
    Udint(u32),
    Ulint(u64),
    Lint(i64),
}

impl PlcInt {
    /// The number of its type in a message.
    pub open spec fn kind(self) -> u8 {
        match self {
            PlcInt::Byte(_) => 1,
            PlcInt::Word(_) => 2,
            PlcInt::Dword(_) => 3,
            PlcInt::Sint(_) => 6,
            PlcInt::Int(_) => 7,
            PlcInt::Dint(_) => 8,
            PlcInt::Usint(_) => 9,
            PlcInt::Uint(_) => 10,
            PlcInt::Udint(_) => 11,
            PlcInt::Ulint(_) => 15,
            PlcInt::Lint(_) => 17,
        }
    }

    /// The integer itself.
    pub open spec fn number(self) -> int {
        match self {
            PlcInt::Byte(n) => n as int,
            PlcInt::Word(n) => n as int,
            PlcInt::Dword(n) => n as int,
            PlcInt::Sint(n) => n as int,
            PlcInt::Int(n) => n as int,
            PlcInt::Dint(n) => n as int,
            PlcInt::Usint(n) => n as int,
            PlcInt::Uint(n) => n as int,
            PlcInt::Udint(n) => n as int,
            PlcInt::Ulint(n) => n as int,
            PlcInt::Lint(n) => n as int,
        }
    }

    /// How many bytes it takes.
    pub open spec fn width(self) -> nat {
        match self {
            PlcInt::Byte(_) | PlcInt::Sint(_) | PlcInt::Usint(_) => 1,
            PlcInt::Word(_) | PlcInt::Int(_) | PlcInt::Uint(_) => 2,
            PlcInt::Dword(_) | PlcInt::Dint(_) | PlcInt::Udint(_) => 4,
            PlcInt::Ulint(_) | PlcInt::Lint(_) => 8,
        }
    }

    /// Whether it is of an unsigned type.
    pub open spec fn unsigned(self) -> bool {
        !(self is Sint || self is Int || self is Dint || self is Lint)
    }

    /// Its bytes, low byte first; a negative number in two's complement.
    pub open spec fn bytes(self) -> Seq<u8> {
        little_endian(self.number(), self.width())
    }
}

/// The lowest `width` bytes of `n`, low byte first.
pub open spec fn little_endian(n: int, width: nat) -> Seq<u8>
    decreases width,
{
    if width == 0 {
        Seq::empty()
    } else {
        seq![(n % 0x100) as u8] + little_endian(n / 0x100, (width - 1) as nat)
    }
}

/// `v` is the integer `n`.
pub open spec fn is_number(v: JsonScalarView, n: int) -> bool {
    match v {
        JsonScalarView::Unsigned(m) => m == n,
        JsonScalarView::Negative(m) => m == n && n < 0,
        _ => false,
    }
}

/// The bytes of a 16-bit integer are its two lowest bytes, low byte first.
pub proof fn law_words_are_little_endian(x: u16)
    ensures
        le16(x) == little_endian(x as int, 2),
{
    reveal(le16);
    reveal_with_fuel(little_endian, 3);
    assert(le16(x) =~= little_endian(x as int, 2));
}

/// The bytes of a 32-bit integer are its four lowest bytes, low byte first.
pub proof fn law_double_words_are_little_endian(x: u32)
    ensures
        le32(x) == little_endian(x as int, 4),
{
    reveal(le32);
    reveal_with_fuel(little_endian, 5);
    assert(x as int / 0x100 / 0x100 == x as int / 0x1_0000);
    assert(x as int / 0x100 / 0x100 / 0x100 == x as int / 0x100_0000);
    assert(le32(x) =~= little_endian(x as int, 4));
}

/// The bytes of a 64-bit integer are its eight lowest bytes, low byte first.
pub proof fn law_quad_words_are_little_endian(x: u64)
    ensures
        le64(x) == little_endian(x as int, 8),
{
    let low = (x % 0x1_0000_0000) as u32;
    let high = (x / 0x1_0000_0000) as u32;
    law_double_words_are_little_endian(low);
    law_double_words_are_little_endian(high);
    lemma_little_endian_split(x as int);
}

proof fn lemma_little_endian_split(n: int)
    ensures
        little_endian(n, 8) == little_endian(n % 0x1_0000_0000, 4) + little_endian(n / 0x1_0000_0000, 4),
{
    reveal_with_fuel(little_endian, 9);
    let a = n % 0x1_0000_0000;
    let n1 = n / 0x100;
    let n2 = n1 / 0x100;
    let n3 = n2 / 0x100;
    let n4 = n3 / 0x100;
    let a1 = a / 0x100;
    let a2 = a1 / 0x100;
    let a3 = a2 / 0x100;
    assert(n4 == n / 0x1_0000_0000);
    assert(a % 0x100 == n % 0x100);
    assert(a1 % 0x100 == n1 % 0x100);
    assert(a2 % 0x100 == n2 % 0x100);
    assert(a3 % 0x100 == n3 % 0x100);
    assert(little_endian(n, 8) =~= little_endian(a, 4) + little_endian(n4, 4));
}

/// Two hundred and fifty-six to the power of `width`.
spec fn span_of(width: nat) -> int
    decreases width,
{
    if width == 0 { 1 } else { 0x100 * span_of((width - 1) as nat) }
}

/// The lowest bytes do not see what stands above them.
proof fn lemma_low_bytes(n: int, k: int, width: nat)
    ensures
        little_endian(n + k * span_of(width), width) == little_endian(n, width),
    decreases width,
{
    if width > 0 {
        let below = (width - 1) as nat;
        let j = k * span_of(below);
        assert(k * (0x100 * span_of(below)) == 0x100 * j) by (nonlinear_arith)
            requires
                j == k * span_of(below),
        ;
        assert((n + 0x100 * j) / 0x100 == n / 0x100 + j);
        assert((n + 0x100 * j) % 0x100 == n % 0x100);
        lemma_low_bytes(n / 0x100, k, below);
    }
}

/// The lowest bytes of a negative number are those of its two's complement.
proof fn lemma_twos_complement(n: int)
    ensures
        little_endian(n, 1) == little_endian(n % 0x100, 1),
        little_endian(n, 2) == little_endian(n % 0x1_0000, 2),
        little_endian(n, 4) == little_endian(n % 0x1_0000_0000, 4),
        little_endian(n, 8) == little_endian(n % 0x1_0000_0000_0000_0000, 8),
{
    reveal_with_fuel(span_of, 9);
    assert(span_of(1) == 0x100);
    assert(span_of(2) == 0x1_0000);
    assert(span_of(4) == 0x1_0000_0000);
    assert(span_of(8) == 0x1_0000_0000_0000_0000);
    lemma_low_bytes(n % 0x100, n / 0x100, 1);
    lemma_low_bytes(n % 0x1_0000, n / 0x1_0000, 2);
    lemma_low_bytes(n % 0x1_0000_0000, n / 0x1_0000_0000, 4);
    lemma_low_bytes(n % 0x1_0000_0000_0000_0000, n / 0x1_0000_0000_0000_0000, 8);
}

/// The word whose little-endian bytes are those of the integer.
pub proof fn lemma_int_bytes(v: PlcInt)
    ensures
        v.bytes().len() == v.width(),
        v.width() == 1 ==> v.bytes() == seq![(v.number() % 0x100) as u8],
        v.width() == 2 ==> v.bytes() == le16((v.number() % 0x1_0000) as u16),
        v.width() == 4 ==> v.bytes() == le32((v.number() % 0x1_0000_0000) as u32),
        v.width() == 8 ==> v.bytes() == le64((v.number() % 0x1_0000_0000_0000_0000) as u64),
{
    let n = v.number();
    lemma_twos_complement(n);
    if v.width() == 1 {
        reveal_with_fuel(little_endian, 2);
        assert(v.bytes() =~= seq![(n % 0x100) as u8]);
    } else if v.width() == 2 {
        law_words_are_little_endian((n % 0x1_0000) as u16);
    } else if v.width() == 4 {
        law_double_words_are_little_endian((n % 0x1_0000_0000) as u32);
    } else {
        law_quad_words_are_little_endian((n % 0x1_0000_0000_0000_0000) as u64);
    }
}

/// Wherever the bytes of an integer stand, they are read as that integer by its type.
pub proof fn lemma_integer_read(s: Seq<u8>, p: int, v: PlcInt, tag: EnumTag)
    requires
        stands(s, p, v.bytes()),
    ensures
        typed_value(s, p, v.kind() as int, tag) matches (Ok(got), q) && is_number(got, v.number()) && q == p
            + v.width(),
{
    lemma_int_bytes(v);
    if v.width() == 1 {
        lemma_one_byte_read(s, p, v, tag);
    } else if v.width() == 2 {
        lemma_two_bytes_read(s, p, v, tag);
    } else if v.width() == 4 {
        lemma_four_bytes_read(s, p, v, tag);
    } else {
        lemma_eight_bytes_read(s, p, v, tag);
    }
}

proof fn lemma_one_byte_read(s: Seq<u8>, p: int, v: PlcInt, tag: EnumTag)
    requires
        v.width() == 1,
        stands(s, p, seq![(v.number() % 0x100) as u8]),
    ensures
        typed_value(s, p, v.kind() as int, tag) matches (Ok(got), q) && is_number(got, v.number()) && q == p + 1,
{
    reveal(typed_value);
    lemma_byte_read(s, p, (v.number() % 0x100) as u8);
}

proof fn lemma_two_bytes_read(s: Seq<u8>, p: int, v: PlcInt, tag: EnumTag)
    requires
        v.width() == 2,
        stands(s, p, le16((v.number() % 0x1_0000) as u16)),
    ensures
        typed_value(s, p, v.kind() as int, tag) matches (Ok(got), q) && is_number(got, v.number()) && q == p + 2,
{
    reveal(typed_value);
    lemma_word_read(s, p, (v.number() % 0x1_0000) as u16);
}

proof fn lemma_four_bytes_read(s: Seq<u8>, p: int, v: PlcInt, tag: EnumTag)
    requires
        v.width() == 4,
        stands(s, p, le32((v.number() % 0x1_0000_0000) as u32)),
    ensures
        typed_value(s, p, v.kind() as int, tag) matches (Ok(got), q) && is_number(got, v.number()) && q == p + 4,
{
    reveal(typed_value);
    lemma_dword_read(s, p, (v.number() % 0x1_0000_0000) as u32);
}

proof fn lemma_eight_bytes_read(s: Seq<u8>, p: int, v: PlcInt, tag: EnumTag)
    requires
        v.width() == 8,
        stands(s, p, le64((v.number() % 0x1_0000_0000_0000_0000) as u64)),
    ensures
        typed_value(s, p, v.kind() as int, tag) matches (Ok(got), q) && is_number(got, v.number()) && q == p + 8,
{
    reveal(typed_value);
    lemma_qword_read(s, p, (v.number() % 0x1_0000_0000_0000_0000) as u64);
}

/// An integer of any type, written as its 16-bit type and its bytes, low byte first, reads back
/// as that integer, whatever stands around it.
pub proof fn law_tagged_integers_read_back(before: Seq<u8>, v: PlcInt, after: Seq<u8>)
    ensures
        ({
            let written = le16(v.kind() as u16) + v.bytes();
            tagged_value(before + written + after, before.len() as int) matches (Ok(got), q) && is_number(
                got,
                v.number(),
            ) && q == before.len() + written.len()
        }),
{
    let written = le16(v.kind() as u16) + v.bytes();
    let s = before + written + after;
    let p = before.len() as int;
    lemma_int_bytes(v);
    lemma_stands_between(before, written, after);
    lemma_stands_split(s, p, le16(v.kind() as u16), v.bytes());
    lemma_word_read(s, p, v.kind() as u16);
    lemma_integer_read(s, p + 2, v, EnumTag::Word);
}

/// An integer of any type, written as its one-byte type and its bytes, low byte first, reads
/// back as that integer, whatever stands around it.
pub proof fn law_short_integers_read_back(before: Seq<u8>, v: PlcInt, after: Seq<u8>)
    ensures
        ({
            let written = seq![v.kind()] + v.bytes();
            short_value(before + written + after, before.len() as int) matches (Ok(got), q) && is_number(
                got,
                v.number(),
            ) && q == before.len() + written.len()
        }),
{
    let written = seq![v.kind()] + v.bytes();
    let s = before + written + after;
    let p = before.len() as int;
    lemma_int_bytes(v);
    lemma_stands_between(before, written, after);
    lemma_stands_split(s, p, seq![v.kind()], v.bytes());
    lemma_byte_read(s, p, v.kind());
    lemma_integer_read(s, p + 1, v, EnumTag::Byte);
}

/// An integer whose bytes are cut short is not read: the error says how many it takes and how
/// many are there.
pub proof fn law_cut_integers_are_incomplete(s: Seq<u8>, p: int, v: PlcInt, tag: EnumTag)
    requires
        0 <= p <= s.len(),
        s.len() < p + v.width(),
    ensures
        typed_value(s, p, v.kind() as int, tag) == (
            Err::<JsonScalarView, AdsErrorView>(
                AdsErrorView::IncompleteMessage { expected: v.width() as int, got: s.len() - p },
            ),
            p,
        ),
{
    reveal(typed_value);
}

/// A truth value is one byte: false for zero, true for any other.
pub proof fn law_truth_values_read_back(s: Seq<u8>, p: int, b: u8, tag: EnumTag)
    requires
        stands(s, p, seq![b]),
    ensures
        typed_value(s, p, 13, tag) == (Ok::<JsonScalarView, AdsErrorView>(JsonScalarView::Bool(b != 0)), p + 1),
{
    reveal(typed_value);
    lemma_byte_read(s, p, b);
}

/// A number with a fraction keeps its bits; what is not finite becomes `null`.
pub proof fn law_reals_read_back(s: Seq<u8>, p: int, x: u32, y: u64, tag: EnumTag)
    ensures
        stands(s, p, le32(x)) ==> typed_value(s, p, 4, tag) == (
            Ok::<JsonScalarView, AdsErrorView>(
                if x / 0x80_0000 % 0x100 == 0xFF { JsonScalarView::Null } else { JsonScalarView::Real(Real(x)) },
            ),
            p + 4,
        ),
        stands(s, p, le64(y)) ==> typed_value(s, p, 5, tag) == (
            Ok::<JsonScalarView, AdsErrorView>(
                if y / 0x10_0000_0000_0000 % 0x800 == 0x7FF {
                    JsonScalarView::Null
                } else {
                    JsonScalarView::Lreal(Lreal(y))
                },
            ),
            p + 8,
        ),
{
    reveal(typed_value);
    if stands(s, p, le32(x)) {
        lemma_dword_read(s, p, x);
    }
    if stands(s, p, le64(y)) {
        lemma_qword_read(s, p, y);
    }
}

/// The types whose values have bytes.
pub open spec fn known_kind(kind: int) -> bool {
    1 <= kind <= 13 || kind == 15 || kind == 17 || 20000 <= kind <= 20006
}

/// A value of a type that is not known is `null` and takes no bytes.
pub proof fn law_unknown_types_are_null(s: Seq<u8>, p: int, kind: int, tag: EnumTag)
    requires
        !known_kind(kind),
    ensures
        typed_value(s, p, kind, tag) == (Ok::<JsonScalarView, AdsErrorView>(JsonScalarView::Null), p),
{
    reveal(typed_value);
}

// Times.

/// A literal for days, hours, minutes, seconds and milliseconds leaves out the parts that are
/// zero; no time at all is zero seconds.
pub proof fn law_time_literals(d: nat, h: nat, m: nat, s: nat, ms: nat, total: u32)
    requires
        total == d * 86_400_000 + h * 3_600_000 + m * 60_000 + s * 1000 + ms,
        h < 24,
        m < 60,
        s < 60,
        ms < 1000,
    ensures
        time_text(total) == "T#"@ + (if d > 0 { dec(d) + "d"@ } else { Seq::empty() }) + (if h > 0 {
            dec(h) + "h"@
        } else {
            Seq::empty()
        }) + (if m > 0 { dec(m) + "m"@ } else { Seq::empty() }) + (if s > 0 || total == 0 {
            dec(s) + "s"@
        } else {
            Seq::empty()
        }) + (if ms > 0 { dec(ms) + "ms"@ } else { Seq::empty() }),
{
    let t = total as int;
    assert(t / 86_400_000 == d);
    assert(t % 86_400_000 == h * 3_600_000 + m * 60_000 + s * 1000 + ms);
    assert(t % 86_400_000 / 3_600_000 == h);
    assert(t % 3_600_000 == m * 60_000 + s * 1000 + ms);
    assert(t % 3_600_000 / 60_000 == m);
    assert(t % 60_000 == s * 1000 + ms);
    assert(t % 60_000 / 1000 == s);
    assert(t % 1000 == ms);
}

/// A literal for a long time has each of its parts, from days to nanoseconds, that is not
/// zero; no time at all is zero seconds.
pub proof fn law_long_time_literals(d: nat, h: nat, m: nat, s: nat, ms: nat, us: nat, ns: nat, total: u64)
    requires
        total == d * 86_400_000_000_000 + h * 3_600_000_000_000 + m * 60_000_000_000 + s * 1_000_000_000 + ms
            * 1_000_000 + us * 1000 + ns,
        h < 24,
        m < 60,
        s < 60,
        ms < 1000,
        us < 1000,
        ns < 1000,
    ensures
        total == 0 ==> ltime_text(total) == "LTIME#"@ + "0s"@,
        total > 0 ==> ltime_text(total) == "LTIME#"@ + (if d > 0 { dec(d) + "d"@ } else { Seq::empty() }) + (if h > 0 {
            dec(h) + "h"@
        } else {
            Seq::empty()
        }) + (if m > 0 { dec(m) + "m"@ } else { Seq::empty() }) + (if s > 0 { dec(s) + "s"@ } else {
            Seq::empty()
        }) + (if ms > 0 { dec(ms) + "ms"@ } else { Seq::empty() }) + (if us > 0 { dec(us) + "us"@ } else {
            Seq::empty()
        }) + (if ns > 0 { dec(ns) + "ns"@ } else { Seq::empty() }),
{
    let t = total as int;
    let below_s = ms * 1_000_000 + us * 1000 + ns;
    let below_m = s * 1_000_000_000 + below_s;
    let below_h = m * 60_000_000_000 + below_m;
    let below_d = h * 3_600_000_000_000 + below_h;
    lemma_whole(d, 86_400_000_000_000, below_d);
    lemma_whole(h, 3_600_000_000_000, below_h);
    lemma_whole(d * 24 + h, 3_600_000_000_000, below_h);
    lemma_whole(m, 60_000_000_000, below_m);
    lemma_whole((d * 24 + h) * 60 + m, 60_000_000_000, below_m);
    lemma_whole(s, 1_000_000_000, below_s);
    lemma_whole(((d * 24 + h) * 60 + m) * 60 + s, 1_000_000_000, below_s);
    lemma_whole(ms, 1_000_000, us * 1000 + ns);
    lemma_whole((((d * 24 + h) * 60 + m) * 60 + s) * 1000 + ms, 1_000_000, us * 1000 + ns);
    lemma_whole(us, 1000, ns);
    lemma_whole(((((d * 24 + h) * 60 + m) * 60 + s) * 1000 + ms) * 1000 + us, 1000, ns);
}

/// Dividing takes a whole number of units and its rest apart.
proof fn lemma_whole(q: nat, unit: int, rest: nat)
    requires
        0 <= rest < unit,
    ensures
        (q * unit + rest) / unit == q,
        (q * unit + rest) % unit == rest,
{
    vstd::arithmetic::div_mod::lemma_fundamental_div_mod_converse(
        q * unit + rest,
        unit,
        q as int,
        rest as int,
    );
}

/// A time of day shows hours, minutes and seconds with two digits each, and milliseconds with
/// three where there are any.
pub proof fn law_time_of_day_literals(h: nat, m: nat, s: nat, ms: nat, total: u32)
    requires
        total == h * 3_600_000 + m * 60_000 + s * 1000 + ms,
        m < 60,
        s < 60,
        ms < 1000,
    ensures
        time_of_day_text(total) == "TOD#"@ + zero_padded(dec(h), 2) + ":"@ + zero_padded(dec(m), 2) + ":"@
            + zero_padded(dec(s), 2) + (if ms > 0 { "."@ + zero_padded(dec(ms), 3) } else { Seq::empty() }),
{
    let t = total as int;
    assert(t / 3_600_000 == h);
    assert(t % 3_600_000 / 60_000 == m);
    assert(t % 60_000 / 1000 == s);
    assert(t % 1000 == ms);
}

/// Times and dates are read from their little-endian counts: milliseconds for a time and a time
/// of day, hundreds of nanoseconds for a long time, seconds since 1970 for a date. The nanoseconds of a
/// long time wrap at 64 bits.
pub proof fn law_times_read_back(s: Seq<u8>, p: int, n: u32, long: u64, tag: EnumTag)
    ensures
        stands(s, p, le32(n)) ==> {
            &&& typed_value(s, p, 20000, tag) == (
                Ok::<JsonScalarView, AdsErrorView>(JsonScalarView::Text(time_text(n))),
                p + 4,
            )
            &&& typed_value(s, p, 20004, tag) == (
                Ok::<JsonScalarView, AdsErrorView>(JsonScalarView::Text(time_of_day_text(n))),
                p + 4,
            )
            &&& typed_value(s, p, 20002, tag) == (
                Ok::<JsonScalarView, AdsErrorView>(
                    JsonScalarView::Text("D#"@ + utc_format(n as i64, "%Y-%-m-%-d"@)),
                ),
                p + 4,
            )
            &&& typed_value(s, p, 20003, tag) == (
                Ok::<JsonScalarView, AdsErrorView>(
                    JsonScalarView::Text("DT#"@ + utc_format(n as i64, "%Y-%-m-%-d-%H:%M:%S"@)),
                ),
                p + 4,
            )
        },
        stands(s, p, le64(long)) ==> typed_value(s, p, 20001, tag) == (
            Ok::<JsonScalarView, AdsErrorView>(
                JsonScalarView::Text(ltime_text((long * 100 % 0x1_0000_0000_0000_0000) as u64)),
            ),
            p + 8,
        ),
{
    reveal(typed_value);
    if stands(s, p, le32(n)) {
        lemma_dword_read(s, p, n);
    }
    if stands(s, p, le64(long)) {
        lemma_qword_read(s, p, long);
    }
}

// Enumerations.

/// An enumeration over an unsigned type is its number, whichever way its type is written.
pub proof fn law_enumerations_read_back(s: Seq<u8>, p: int, v: PlcInt)
    requires
        v.unsigned(),
    ensures
        stands(s, p, le16(v.kind() as u16) + v.bytes()) ==> (typed_value(s, p, 20005, EnumTag::Word) matches (
            Ok(got),
            q,
        ) && is_number(got, v.number()) && q == p + 2 + v.width()),
        stands(s, p, seq![v.kind()] + v.bytes()) ==> (typed_value(s, p, 20005, EnumTag::Byte) matches (Ok(got), q)
            && is_number(got, v.number()) && q == p + 1 + v.width()),
{
    let word_kind = le16(v.kind() as u16);
    let byte_kind = seq![v.kind()];
    if stands(s, p, word_kind + v.bytes()) {
        lemma_stands_split(s, p, word_kind, v.bytes());
        lemma_word_read(s, p, v.kind() as u16);
        lemma_integer_read(s, p + 2, v, EnumTag::Word);
        reveal(typed_value);
    }
    if stands(s, p, byte_kind + v.bytes()) {
        lemma_stands_split(s, p, byte_kind, v.bytes());
        lemma_byte_read(s, p, v.kind());
        lemma_integer_read(s, p + 1, v, EnumTag::Byte);
        reveal(typed_value);
    }
}

// Wide strings.

/// The UTF-16 units of one character.
pub open spec fn char_units(c: char) -> Seq<u16> {
    let n = c as u32;
    if n < 0x1_0000 {
        seq![n as u16]
    } else {
        seq![(0xD800 + (n - 0x1_0000) / 0x400) as u16, (0xDC00 + (n - 0x1_0000) % 0x400) as u16]
    }
}

/// A text in UTF-16.
pub open spec fn text_units(t: Seq<char>) -> Seq<u16>
    decreases t.len(),
{
    if t.len() == 0 { Seq::empty() } else { char_units(t[0]) + text_units(t.skip(1)) }
}

/// Units as bytes, the low byte of each first.
pub open spec fn unit_bytes(u: Seq<u16>) -> Seq<u8> {
    Seq::new(
        2 * u.len(),
        |i: int| if i % 2 == 0 { (u[i / 2] % 0x100) as u8 } else { (u[i / 2] / 0x100) as u8 },
    )
}

/// A text in UTF-16 reads back as the text.
pub proof fn law_utf16_reads_back(t: Seq<char>)
    ensures
        lossy_utf16(text_units(t)) == t,
    decreases t.len(),
{
    if t.len() > 0 {
        let rest = t.skip(1);
        law_utf16_reads_back(rest);
        let u = text_units(t);
        lemma_char_units(t[0], text_units(rest));
        assert(u == char_units(t[0]) + text_units(rest));
        assert(seq![t[0]] + rest =~= t);
    }
}

proof fn lemma_char_units(c: char, rest: Seq<u16>)
    ensures
        lossy_utf16(char_units(c) + rest) == seq![c] + lossy_utf16(rest),
{
    let u = char_units(c) + rest;
    if (c as u32) < 0x1_0000 {
        assert(u.skip(1) =~= rest);
    } else {
        assert(u.skip(2) =~= rest);
    }
}

/// A wide string, written as one byte for its number of units and the units, reads back as its
/// text, whatever stands around it.
pub proof fn law_wide_strings_read_back(s: Seq<u8>, p: int, t: Seq<char>, tag: EnumTag)
    requires
        text_units(t).len() <= 255,
        stands(s, p, seq![text_units(t).len() as u8] + unit_bytes(text_units(t))),
    ensures
        typed_value(s, p, 20006, tag) == (
            Ok::<JsonScalarView, AdsErrorView>(JsonScalarView::Text(t)),
            p + 1 + 2 * text_units(t).len() as int,
        ),
{
    let u = text_units(t);
    let b = unit_bytes(u);
    lemma_stands_split(s, p, seq![u.len() as u8], b);
    lemma_byte_read(s, p, u.len() as u8);
    assert forall|i: int| 0 <= i < u.len() implies #[trigger] u16_at(b, 2 * i) == u[i] by {
        assert((2 * i) % 2 == 0 && (2 * i) / 2 == i);
        assert((2 * i + 1) % 2 == 1 && (2 * i + 1) / 2 == i);
    }
    assert(units(b) =~= u);
    law_utf16_reads_back(t);
    reveal(typed_value);
}

/// The one-byte types from 100 to 106 stand for times, dates, enumerations and wide strings.
pub proof fn law_short_types_stand_for_long_ones(s: Seq<u8>, p: int, kind: u8)
    requires
        stands(s, p, seq![kind]),
    ensures
        100 <= kind <= 106 ==> short_value(s, p) == typed_value(s, p + 1, 19900 + kind, EnumTag::Byte),
        !(100 <= kind <= 106) ==> short_value(s, p) == typed_value(s, p + 1, kind as int, EnumTag::Byte),
{
    lemma_byte_read(s, p, kind);
}

} // verus!
