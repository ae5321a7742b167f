//! What the samples and texts of pushed batches mean, and which batches are refused.
use vstd::prelude::*;
use vstd::utf8::{encode_utf8, encode_utf8_decode_utf8, encode_utf8_valid_utf8};

use crate::diagnostics::{metric_stat_order, DiagEventView, MetricAggregateSampleView, MetricBodySchema};
use crate::diagnostics_push::{
    aggregate_of, aggregate_sample_at, batch_of, bit_count, descriptor_at, fits, lead_size, metric_batch_of, pairs_at,
    text_at, trace_size, trimmed,
};
use crate::encoding::{le64, lemma_qword_read, lemma_stands_split, stands};
use crate::models::Lreal;
use crate::push_laws::{WireAggregate, WireBatch};
use crate::text::readable;
use crate::value::units;
use crate::value_laws::{law_utf16_reads_back, text_units, unit_bytes};
use crate::wire::{u16_at, u64_at};

verus! {

broadcast use crate::wire::group_wire;

// Texts.

/// Trimming takes the filling at the end away, and nothing else.
pub proof fn law_filling_is_taken_away<T>(s: Seq<T>, pad: T, n: nat)
    requires
        s.len() > 0 ==> s.last() != pad,
    ensures
        trimmed(s + Seq::new(n, |i: int| pad), pad) == s,
    decreases n,
{
    let all = s + Seq::new(n, |i: int| pad);
    if n > 0 {
        let fewer = Seq::new((n - 1) as nat, |i: int| pad);
        assert(all.last() == pad);
        assert(all.drop_last() =~= s + fewer);
        law_filling_is_taken_away(s, pad, (n - 1) as nat);
    } else {
        assert(all =~= s);
    }
}

/// A text that was encoded is readable as itself.
pub proof fn law_encoded_texts_are_readable(t: Seq<char>)
    ensures
        readable(encode_utf8(t)) == t,
{
    encode_utf8_valid_utf8(t);
    encode_utf8_decode_utf8(t);
}

/// The bytes of `t` do not end with a zero.
pub open spec fn ends_visibly(t: Seq<char>) -> bool {
    encode_utf8(t).len() > 0 ==> encode_utf8(t).last() != 0
}

/// A text of a fixed number of bytes, filled up with zeros, reads back as the text.
pub proof fn law_filled_texts_read_back(t: Seq<char>, n: nat)
    requires
        ends_visibly(t),
    ensures
        readable(trimmed(encode_utf8(t) + Seq::new(n, |i: int| 0u8), 0)) == t,
{
    law_filling_is_taken_away(encode_utf8(t), 0u8, n);
    law_encoded_texts_are_readable(t);
}

/// The name of a task in a batch, filled up with zeros, reads back as the name.
pub proof fn law_task_names_read_back(b: WireBatch, name: Seq<char>, after: Seq<u8>)
    requires
        b.writable(),
        encode_utf8(name).len() <= 20,
        ends_visibly(name),
        b.name == encode_utf8(name) + Seq::new((20 - encode_utf8(name).len()) as nat, |i: int| 0u8),
    ensures
        batch_of(b.bytes() + after) matches Some(DiagEventView::TaskDiagBatch { task_name, .. }) && task_name == name,
{
    law_filled_texts_read_back(name, (20 - encode_utf8(name).len()) as nat);
    crate::push_laws::law_task_batch_reads_back(b, after);
}

// Samples.

/// Numbers of eight bytes each, one behind the other.
pub open spec fn numbers_bytes(all: Seq<u64>) -> Seq<u8>
    decreases all.len(),
{
    if all.len() == 0 { Seq::empty() } else { le64(all[0]) + numbers_bytes(all.skip(1)) }
}

proof fn lemma_numbers(s: Seq<u8>, p: int, all: Seq<u64>, k: int)
    requires
        stands(s, p, numbers_bytes(all)),
        0 <= k < all.len(),
    ensures
        u64_at(s, p + 8 * k) == all[k],
    decreases all.len(),
{
    lemma_stands_split(s, p, le64(all[0]), numbers_bytes(all.skip(1)));
    if k == 0 {
        lemma_qword_read(s, p, all[0]);
    } else {
        lemma_numbers(s, p + 8, all.skip(1), k - 1);
    }
}

/// A truth value is one byte, false for zero; a number keeps its bits; raw bytes are themselves.
pub proof fn law_plain_samples_read_back(s: Seq<u8>, at: int, b: u8, x: u64, raw: Seq<u8>, mask: u8)
    ensures
        stands(s, at, seq![b]) ==> aggregate_sample_at(s, at, MetricBodySchema::Bool, 1, mask)
            == MetricAggregateSampleView::Bool(b != 0),
        stands(s, at, le64(x)) ==> aggregate_sample_at(s, at, MetricBodySchema::Numeric, 8, mask)
            == MetricAggregateSampleView::Numeric(Lreal(x)),
        stands(s, at, raw) ==> aggregate_sample_at(s, at, MetricBodySchema::Discrete, raw.len() as int, mask)
            == MetricAggregateSampleView::Discrete(raw),
{
    if stands(s, at, seq![b]) {
        crate::encoding::lemma_byte_read(s, at, b);
    }
    if stands(s, at, le64(x)) {
        lemma_qword_read(s, at, x);
    }
}

/// A text, in UTF-8 or in UTF-16, filled up with zeros, reads back as the text.
pub proof fn law_text_samples_read_back(s: Seq<u8>, at: int, t: Seq<char>, n: nat, mask: u8)
    requires
        ends_visibly(t),
        t.len() > 0 ==> t.last() != '\0',
    ensures
        ({
            let body = encode_utf8(t) + Seq::new(n, |i: int| 0u8);
            stands(s, at, body) ==> aggregate_sample_at(s, at, MetricBodySchema::String, body.len() as int, mask)
                == MetricAggregateSampleView::String(t)
        }),
        ({
            let body = unit_bytes(text_units(t) + Seq::new(n, |i: int| 0u16));
            stands(s, at, body) ==> aggregate_sample_at(s, at, MetricBodySchema::Wstring, body.len() as int, mask)
                == MetricAggregateSampleView::Wstring(t)
        }),
{
    law_filled_texts_read_back(t, n);
    let filled = text_units(t) + Seq::new(n, |i: int| 0u16);
    let body = unit_bytes(filled);
    assert forall|i: int| 0 <= i < filled.len() implies #[trigger] u16_at(body, 2 * i) == filled[i] by {
        assert((2 * i) % 2 == 0 && (2 * i) / 2 == i);
        assert((2 * i + 1) % 2 == 1 && (2 * i + 1) / 2 == i);
    }
    assert(units(body) =~= filled);
    if t.len() > 0 {
        lemma_last_unit(t);
    }
    law_filling_is_taken_away(text_units(t), 0u16, n);
    law_utf16_reads_back(t);
}

proof fn lemma_last_unit(t: Seq<char>)
    requires
        t.len() > 0,
        t.last() != '\0',
    ensures
        text_units(t).len() > 0,
        text_units(t).last() != 0,
    decreases t.len(),
{
    let rest = t.skip(1);
    lemma_units_of_char(t[0]);
    if t.len() == 1 {
        assert(text_units(rest) =~= Seq::empty());
    } else {
        assert(rest.last() == t.last());
        lemma_last_unit(rest);
    }
}

proof fn lemma_units_of_char(c: char)
    ensures
        crate::value_laws::char_units(c).len() > 0,
        c != '\0' ==> crate::value_laws::char_units(c).last() != 0,
{
}

/// Statistics are numbers of eight bytes each, as many as the mask has bits, in the order of the
/// bits.
pub proof fn law_statistics_read_back(s: Seq<u8>, at: int, all: Seq<u64>, mask: u8)
    requires
        all.len() == bit_count(mask),
        stands(s, at, numbers_bytes(all)),
    ensures
        aggregate_sample_at(s, at, MetricBodySchema::NumericAggregated, 8 * all.len() as int, mask)
            == (MetricAggregateSampleView::NumericAggregated {
            stat_mask: mask,
            values: all.map_values(|x: u64| Lreal(x)),
        }),
{
    let read = Seq::new(bit_count(mask) as nat, |k: int| Lreal(u64_at(s, at + 8 * k)));
    assert forall|k: int| 0 <= k < all.len() implies #[trigger] read[k] == Lreal(all[k]) by {
        lemma_numbers(s, at, all, k);
    }
    assert(read =~= all.map_values(|x: u64| Lreal(x)));
}

/// The ones in the binary numeral of `n`.
pub open spec fn ones(n: nat) -> nat
    decreases n,
{
    if n == 0 { 0 } else { n % 2 + ones(n / 2) }
}

/// A mask has as many statistics as it has bits set.
pub proof fn law_bits_are_counted(mask: u8)
    ensures
        bit_count(mask) == ones(mask as nat),
{
    reveal_with_fuel(ones, 10);
    let n = mask as nat;
    assert(n / 2 / 2 == n / 4);
    assert(n / 2 / 2 / 2 == n / 8);
    assert(n / 2 / 2 / 2 / 2 == n / 16);
    assert(n / 2 / 2 / 2 / 2 / 2 == n / 32);
    assert(n / 2 / 2 / 2 / 2 / 2 / 2 == n / 64);
    assert(n / 2 / 2 / 2 / 2 / 2 / 2 / 2 == n / 128);
    assert(n / 2 / 2 / 2 / 2 / 2 / 2 / 2 / 2 == 0);
}

/// A sample takes at least one byte: one for a truth value, eight for a number, eight for each
/// statistic, and any number for raw bytes and texts.
pub proof fn law_sample_sizes(size: u32, mask: u8)
    ensures
        fits(MetricBodySchema::Bool, size, mask) <==> size == 1,
        fits(MetricBodySchema::Numeric, size, mask) <==> size == 8,
        fits(MetricBodySchema::NumericAggregated, size, mask) <==> size == 8 * ones(mask as nat) && mask > 0,
        fits(MetricBodySchema::Discrete, size, mask) <==> size > 0,
        fits(MetricBodySchema::String, size, mask) <==> size > 0,
        fits(MetricBodySchema::Wstring, size, mask) <==> size > 0,
{
    law_bits_are_counted(mask);
}

/// The first bit of the flags stands for a trace context of 24 bytes, the third for two bytes
/// before each sample.
pub proof fn law_flags_of_aggregates(flags: u8)
    ensures
        trace_size(flags) == (if flags % 2 == 1 { 24int } else { 0 }),
        lead_size(flags) == (if flags / 4 % 2 == 1 { 2int } else { 0 }),
{
    assert(flags & 1 == flags % 2) by (bit_vector);
    assert((flags & 4 != 0) == (flags / 4 % 2 == 1)) by (bit_vector);
}

/// The statistics are named in the order of their bits.
pub proof fn law_statistics_are_named(r: [(u8, &'static str); 6])
    requires
        call_ensures(metric_stat_order, (), r),
    ensures
        r@[0].0 == 1 && r@[0].1@ == "min"@,
        r@[1].0 == 2 && r@[1].1@ == "max"@,
        r@[2].0 == 4 && r@[2].1@ == "mean"@,
        r@[3].0 == 8 && r@[3].1@ == "sum"@,
        r@[4].0 == 16 && r@[4].1@ == "count"@,
        r@[5].0 == 32 && r@[5].1@ == "stddev"@,
{
}

// Refused batches.

/// A batch of another version or of another type is refused, and so is one whose fixed part is cut
/// short.
pub proof fn law_other_batches_are_refused(s: Seq<u8>)
    ensures
        s.len() < 80 || s[0] != 2 || s[1] != 10 ==> batch_of(s) is None,
        s.len() < 32 || s[0] != 2 || s[1] != 20 ==> metric_batch_of(s) is None,
        s.len() < 52 || s[0] != 2 || s[1] != 21 ==> aggregate_of(s) is None,
        s.len() >= 80 && u16_at(s, 12) > 1024 ==> batch_of(s) is None,
{
}

/// An aggregate batch is refused where its schema is not known, its samples do not have the size of
/// the schema, or it holds fewer samples than it says.
pub proof fn law_bad_aggregates_are_refused(s: Seq<u8>)
    requires
        s.len() >= 52,
    ensures
        aggregate_of(s) is Some ==> {
            let size = crate::wire::u32_at(s, 4);
            let count = crate::wire::u32_at(s, 8);
            &&& 1 <= s[3] <= 6
            &&& s[3] == 1 ==> size == 1
            &&& s[3] == 2 ==> size == 8
            &&& s[3] == 6 ==> size == 8 * ones(s[17] as nat)
            &&& size > 0
            &&& 52 + trace_size(s[2]) + s[48] + s[49] + count * (lead_size(s[2]) + size) <= s.len()
        },
{
    law_bits_are_counted(s[17]);
}

/// A sample of a written batch is what its own bytes stand for: with the number `x` in eight bytes
/// as the body of a numeric sample, the number.
pub proof fn law_numeric_batches_read_back(a: WireAggregate, i: int, x: u64, after: Seq<u8>)
    requires
        a.writable(),
        a.schema == MetricBodySchema::Numeric,
        0 <= i < a.samples.len(),
        a.samples[i].body == le64(x),
    ensures
        aggregate_of(a.bytes() + after) matches Some(DiagEventView::MetricAggregateBatch { samples, .. })
            && samples.len() == a.samples.len() && samples[i] == MetricAggregateSampleView::Numeric(Lreal(x)),
{
    crate::push_laws::law_aggregate_batch_reads_back(a, after);
    let body = a.samples[i].body;
    assert(body.subrange(0, 8) =~= body);
    law_plain_samples_read_back(body, 0, 0, x, body, a.stat_mask);
}

/// A descriptor has at most eight attributes, and only a histogram has bounds, whatever its count of
/// bounds says.
pub proof fn law_descriptors_are_checked(s: Seq<u8>, p: int)
    requires
        0 <= p,
    ensures
        s.len() < p + 12 ==> descriptor_at(s, p) is None,
        s.len() >= p + 12 && s[p + 7] > 8 ==> descriptor_at(s, p) is None,
        descriptor_at(s, p) matches Some((d, end)) ==> {
            &&& d.attributes.len() <= 8
            &&& d.attributes.len() == s[p + 7]
            &&& d.kind == s[p + 2]
            &&& d.histogram_bounds is Some <==> s[p + 2] == 2 && s[p + 8] > 0
            &&& d.histogram_bounds matches Some(bounds) ==> bounds.len() == s[p + 8]
        },
{
    lemma_pairs_count(s, p + 12 + s[p + 4] + s[p + 5] + s[p + 6], s[p + 7] as nat, Seq::empty());
}

proof fn lemma_pairs_count(s: Seq<u8>, p: int, n: nat, found: Seq<(Seq<char>, Seq<char>)>)
    ensures
        pairs_at(s, p, n, found) matches Some((all, _)) ==> all.len() == found.len() + n,
    decreases n,
{
    if n > 0 && p + 2 <= s.len() {
        match (text_at(s, p + 2, s[p] as int), text_at(s, p + 2 + s[p], s[p + 1] as int)) {
            (Some(k), Some(v)) => lemma_pairs_count(
                s,
                p + 2 + s[p] + s[p + 1],
                (n - 1) as nat,
                found.push((k, v)),
            ),
            _ => {},
        }
    }
}

} // verus!
