//! What numerals, padding, trimming and letter cases mean.
use vstd::prelude::*;

use crate::text::{
    char_from, dec, decimal_value, digit, hex, is_decimal, is_white, law_dec_reads_back, lower, octet, pieces, trimmed_end,
    trimmed_start, trimmed_text, upper, upper_char, zero_padded,
};

verus! {

/// A character of a hexadecimal numeral.
pub open spec fn is_hex(c: char) -> bool {
    '0' <= c <= '9' || 'a' <= c <= 'f'
}

/// The number that hexadecimal digits write.
pub open spec fn hex_value(s: Seq<char>) -> nat
    decreases s.len(),
{
    if s.len() == 0 {
        0
    } else {
        let c = s.last();
        16 * hex_value(s.drop_last()) + (if c <= '9' { c as int - '0' as int } else { c as int - 'a' as int + 10 }) as nat
    }
}

/// A hexadecimal numeral is made of lower-case digits, and is read as the number.
pub proof fn law_hex_reads_back(n: nat)
    ensures
        hex(n).len() > 0,
        forall|i: int| 0 <= i < hex(n).len() ==> is_hex(#[trigger] hex(n)[i]),
        hex_value(hex(n)) == n,
    decreases n,
{
    if n < 16 {
        assert(hex(n).drop_last() =~= Seq::<char>::empty());
        assert(hex(n).last() == digit(n as int));
        assert(hex_value(hex(n).drop_last()) == 0);
    } else {
        law_hex_reads_back(n / 16);
        assert(hex(n).drop_last() =~= hex(n / 16));
        assert(hex(n).last() == digit((n % 16) as int));
        assert forall|i: int| 0 <= i < hex(n).len() implies is_hex(#[trigger] hex(n)[i]) by {
            if i < hex(n / 16).len() {
                assert(hex(n)[i] == hex(n / 16)[i]);
            }
        }
    }
}

/// Numerals are as short as can be: only zero starts with the digit zero.
pub proof fn law_numerals_have_no_leading_zeros(n: nat)
    ensures
        dec(n)[0] == '0' <==> n == 0,
        hex(n)[0] == '0' <==> n == 0,
        n == 0 ==> dec(n).len() == 1 && hex(n).len() == 1,
    decreases n,
{
    if n >= 10 {
        law_numerals_have_no_leading_zeros(n / 10);
        law_dec_reads_back(n / 10);
        assert(dec(n)[0] == dec(n / 10)[0]);
    }
    if n >= 16 {
        law_numerals_have_no_leading_zeros(n / 16);
        law_hex_reads_back(n / 16);
        assert(hex(n)[0] == hex(n / 16)[0]);
    }
}

/// Padding puts zeros before a text, as many as the width asks for, and changes nothing else.
pub proof fn law_padding_adds_zeros_in_front(s: Seq<char>, width: nat)
    ensures
        zero_padded(s, width).len() == (if s.len() < width { width } else { s.len() }),
        zero_padded(s, width).skip(zero_padded(s, width).len() - s.len()) == s,
        forall|i: int| 0 <= i < zero_padded(s, width).len() - s.len() ==> #[trigger] zero_padded(s, width)[i] == '0',
{
    assert(zero_padded(s, width).skip(zero_padded(s, width).len() - s.len()) =~= s);
}

/// Padding a numeral does not change its number.
pub proof fn law_padded_hex_reads_back(n: nat, width: nat)
    ensures
        hex_value(zero_padded(hex(n), width)) == n,
{
    law_hex_reads_back(n);
    if hex(n).len() < width {
        lemma_zeros_in_front(hex(n), (width - hex(n).len()) as nat);
    }
}

proof fn lemma_zeros_in_front(s: Seq<char>, k: nat)
    ensures
        hex_value(Seq::new(k, |i: int| '0') + s) == hex_value(s),
    decreases s.len(), k,
{
    let zeros = Seq::new(k, |i: int| '0');
    if s.len() > 0 {
        assert((zeros + s).drop_last() =~= zeros + s.drop_last());
        lemma_zeros_in_front(s.drop_last(), k);
    } else if k > 0 {
        let fewer = Seq::new((k - 1) as nat, |i: int| '0');
        assert((zeros + s).drop_last() =~= fewer + s);
        lemma_zeros_in_front(s, (k - 1) as nat);
    } else {
        assert(zeros + s =~= s);
    }
}

/// `s` is white space and nothing else.
pub open spec fn all_white(s: Seq<char>) -> bool {
    forall|i: int| 0 <= i < s.len() ==> is_white(#[trigger] s[i])
}

/// Trimming takes the white space around a text away, and nothing else.
pub proof fn law_trimming_leaves_the_text(before: Seq<char>, t: Seq<char>, after: Seq<char>)
    requires
        all_white(before),
        all_white(after),
        t.len() > 0 ==> !is_white(t[0]) && !is_white(t.last()),
    ensures
        trimmed_text(before + t + after) == t,
{
    lemma_white_in_front(before, t + after);
    assert(before + t + after =~= before + (t + after));
    if t.len() > 0 {
        assert((t + after)[0] == t[0]);
        lemma_white_behind(t, after);
    } else {
        assert(t + after =~= after);
        assert(after + Seq::<char>::empty() =~= after);
        lemma_white_in_front(after, Seq::<char>::empty());
    }
}

proof fn lemma_white_in_front(before: Seq<char>, t: Seq<char>)
    requires
        all_white(before),
    ensures
        trimmed_start(before + t) == trimmed_start(t),
    decreases before.len(),
{
    if before.len() > 0 {
        assert((before + t)[0] == before[0]);
        assert((before + t).skip(1) =~= before.skip(1) + t);
        assert(all_white(before.skip(1))) by {
            assert forall|i: int| 0 <= i < before.skip(1).len() implies is_white(#[trigger] before.skip(1)[i]) by {
                assert(before.skip(1)[i] == before[i + 1]);
            }
        }
        lemma_white_in_front(before.skip(1), t);
    } else {
        assert(before + t =~= t);
    }
}

proof fn lemma_white_behind(t: Seq<char>, after: Seq<char>)
    requires
        all_white(after),
        t.len() > 0,
        !is_white(t.last()),
    ensures
        trimmed_end(t + after) == t,
    decreases after.len(),
{
    if after.len() > 0 {
        assert((t + after).last() == after.last());
        assert((t + after).drop_last() =~= t + after.drop_last());
        assert(all_white(after.drop_last()));
        lemma_white_behind(t, after.drop_last());
    } else {
        assert(t + after =~= t);
    }
}

/// `c` is `u`, or the lower-case form of the upper-case letter `u`.
pub open spec fn same_letter(c: char, u: char) -> bool {
    c == u || ('A' <= u <= 'Z' && c as int == u as int + 32)
}

/// `s` spells `t`, in whatever case of its letters.
pub open spec fn spells(s: Seq<char>, t: Seq<char>) -> bool {
    s.len() == t.len() && forall|i: int| 0 <= i < t.len() ==> same_letter(#[trigger] s[i], t[i])
}

/// `t` has no lower-case letter.
pub open spec fn in_capitals(t: Seq<char>) -> bool {
    forall|i: int| 0 <= i < t.len() ==> !('a' <= #[trigger] t[i] <= 'z')
}

/// However the letters of a text in capitals are written, upper case gives it back; and only what spells it does.
pub proof fn law_upper_case_spells(s: Seq<char>, t: Seq<char>)
    requires
        in_capitals(t),
    ensures
        upper(s) == t <==> spells(s, t),
{
    if upper(s) == t {
        assert(s.len() == upper(s).len());
        assert forall|i: int| 0 <= i < t.len() implies same_letter(#[trigger] s[i], t[i]) by {
            assert(upper(s)[i] == upper_char(s[i]));
        }
    }
    if spells(s, t) {
        assert forall|i: int| 0 <= i < t.len() implies upper(s)[i] == #[trigger] t[i] by {
            assert(same_letter(s[i], t[i]));
            assert(!('a' <= t[i] <= 'z'));
        }
        assert(upper(s) =~= t);
    }
}

/// Lower case and upper case undo each other on letters, and leave all else alone.
pub proof fn law_cases_are_inverse(s: Seq<char>)
    ensures
        in_capitals(s) ==> upper(lower(s)) == s,
        upper(lower(s)) == upper(s),
        lower(upper(s)) == lower(s),
        lower(s).len() == s.len(),
        forall|i: int|
            0 <= i < s.len() ==> {
                let c = #[trigger] lower(s)[i];
                &&& !('A' <= c <= 'Z')
                &&& c == s[i] || ('A' <= s[i] <= 'Z' && c as int == s[i] as int + 32)
            },
{
    assert(upper(lower(s)) =~= upper(s));
    assert(lower(upper(s)) =~= lower(s));
    if in_capitals(s) {
        assert(upper(s) =~= s) by {
            assert forall|i: int| 0 <= i < s.len() implies upper(s)[i] == #[trigger] s[i] by {
                assert(!('a' <= s[i] <= 'z'));
            }
        }
    }
}

/// What is found is the first such character; the end stands for none.
pub proof fn law_first_place(s: Seq<char>, c: char, from: int)
    requires
        0 <= from <= s.len(),
    ensures
        ({
            let at = char_from(s, c, from);
            &&& from <= at <= s.len()
            &&& at < s.len() ==> s[at] == c
            &&& forall|i: int| from <= i < at ==> #[trigger] s[i] != c
        }),
    decreases s.len() - from,
{
    if from < s.len() && s[from] != c {
        law_first_place(s, c, from + 1);
    }
}

/// `parts` one behind the other, with `sep` between them.
pub open spec fn joined(parts: Seq<Seq<char>>, sep: char) -> Seq<char>
    decreases parts.len(),
{
    if parts.len() == 0 {
        Seq::empty()
    } else if parts.len() == 1 {
        parts[0]
    } else {
        joined(parts.drop_last(), sep).push(sep) + parts.last()
    }
}

/// The pieces of a text hold no separator, and make up the text when joined by it.
pub proof fn law_pieces_join_to_the_text(s: Seq<char>, sep: char)
    ensures
        pieces(s, sep).len() > 0,
        joined(pieces(s, sep), sep) == s,
        forall|i: int, j: int|
            0 <= i < pieces(s, sep).len() && 0 <= j < pieces(s, sep)[i].len() ==> #[trigger] pieces(s, sep)[i][j] != sep,
    decreases s.len(),
{
    if s.len() > 0 {
        let before = pieces(s.drop_last(), sep);
        let all = pieces(s, sep);
        law_pieces_join_to_the_text(s.drop_last(), sep);
        assert(all.drop_last() =~= if s.last() == sep { before } else { before.drop_last() });
        if s.last() == sep {
            assert(joined(all, sep) =~= s.drop_last().push(sep));
            assert(s.drop_last().push(sep) =~= s);
            assert forall|i: int, j: int|
                0 <= i < all.len() && 0 <= j < all[i].len() implies #[trigger] all[i][j] != sep by {
                if i < before.len() {
                    assert(all[i] == before[i]);
                }
            }
        } else {
            assert(joined(all, sep) =~= joined(before, sep).push(s.last()));
            assert(joined(before, sep).push(s.last()) =~= s);
            assert forall|i: int, j: int|
                0 <= i < all.len() && 0 <= j < all[i].len() implies #[trigger] all[i][j] != sep by {
                if i < before.len() - 1 {
                    assert(all[i] == before[i]);
                } else if j < before.last().len() {
                    assert(all[i][j] == before[before.len() - 1][j]);
                }
            }
        }
    } else {
        assert(pieces(s, sep)[0] =~= s);
    }
}

/// A numeral below 256 writes an octet, also with zeros or a plus before it; one of 256 or more does
/// not, nor does a text that holds anything but digits, nor an empty one.
pub proof fn law_octets_are_numerals(n: nat, k: nat, s: Seq<char>)
    ensures
        n < 256 ==> octet(dec(n)) == Some(n as u8),
        n < 256 ==> octet(seq!['+'] + dec(n)) == Some(n as u8),
        n < 256 ==> octet(Seq::new(k, |i: int| '0') + dec(n)) == Some(n as u8),
        n >= 256 ==> octet(dec(n)) is None && octet(seq!['+'] + dec(n)) is None,
        s.len() == 0 ==> octet(s) is None,
        (exists|i: int| 1 <= i < s.len() && !is_decimal(#[trigger] s[i])) ==> octet(s) is None,
        s.len() > 0 && s[0] != '+' && !is_decimal(s[0]) ==> octet(s) is None,
{
    law_dec_reads_back(n);
    assert(is_decimal(dec(n)[0]));
    assert((seq!['+'] + dec(n)).skip(1) =~= dec(n));
    let zeros = Seq::new(k, |i: int| '0');
    let padded = zeros + dec(n);
    lemma_decimal_zeros_in_front(dec(n), k);
    assert forall|i: int| 0 <= i < padded.len() implies is_decimal(#[trigger] padded[i]) by {
        if i >= k {
            assert(padded[i] == dec(n)[i - k]);
        }
    }
    assert(is_decimal(padded[0]));
    if exists|i: int| 1 <= i < s.len() && !is_decimal(#[trigger] s[i]) {
        let i = choose|i: int| 1 <= i < s.len() && !is_decimal(#[trigger] s[i]);
        assert(s.skip(1)[i - 1] == s[i]);
    }
}

proof fn lemma_decimal_zeros_in_front(s: Seq<char>, k: nat)
    ensures
        decimal_value(Seq::new(k, |i: int| '0') + s) == decimal_value(s),
    decreases s.len(), k,
{
    let zeros = Seq::new(k, |i: int| '0');
    if s.len() > 0 {
        assert((zeros + s).drop_last() =~= zeros + s.drop_last());
        lemma_decimal_zeros_in_front(s.drop_last(), k);
    } else if k > 0 {
        let fewer = Seq::new((k - 1) as nat, |i: int| '0');
        assert((zeros + s).drop_last() =~= fewer + s);
        lemma_decimal_zeros_in_front(s, (k - 1) as nat);
    } else {
        assert(zeros + s =~= s);
    }
}

} // verus!
