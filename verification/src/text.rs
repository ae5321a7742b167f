//! Text: decimal and hexadecimal numerals, UTF-8 and UTF-16, and the character
//! operations that topics, names and messages need.
use vstd::prelude::*;
use vstd::utf8::{decode_utf8, valid_utf8};

verus! {

/// The character of the digit `d`, for `d` below sixteen.
pub open spec fn digit(d: int) -> char {
    if d < 10 { (48 + d) as char } else { (87 + d) as char }
}

/// `n` in decimal.
pub open spec fn dec(n: nat) -> Seq<char>
    decreases n,
{
    if n < 10 { seq![digit(n as int)] } else { dec(n / 10).push(digit((n % 10) as int)) }
}

/// `n` in lower-case hexadecimal.
pub open spec fn hex(n: nat) -> Seq<char>
    decreases n,
{
    if n < 16 { seq![digit(n as int)] } else { hex(n / 16).push(digit((n % 16) as int)) }
}

/// `s` filled up with zeros on the left to at least `width` characters.
pub open spec fn zero_padded(s: Seq<char>, width: nat) -> Seq<char> {
    if s.len() < width { Seq::new((width - s.len()) as nat, |i: int| '0') + s } else { s }
}

/// `std::string::String::push` appends one character.
pub assume_specification[ std::string::String::push ](s: &mut String, c: char)
    ensures
        final(s)@ == old(s)@.push(c),
;

/// The text that `std::str::from_utf8` gives for its error on `bytes`, when they are not UTF-8.
pub uninterp spec fn utf8_error_text(bytes: Seq<u8>) -> Seq<char>;

/// The text that `String::from_utf8_lossy` makes of `bytes`.
pub uninterp spec fn lossy_utf8(bytes: Seq<u8>) -> Seq<char>;

/// The text in `bytes`: decoded where they are UTF-8, otherwise with ill-formed parts replaced.
pub open spec fn readable(bytes: Seq<u8>) -> Seq<char> {
    if valid_utf8(bytes) { decode_utf8(bytes) } else { lossy_utf8(bytes) }
}

/// The text in UTF-16 `units`, with a replacement character for each surrogate without its pair.
pub open spec fn lossy_utf16(units: Seq<u16>) -> Seq<char>
    decreases units.len(),
{
    if units.len() == 0 {
        Seq::empty()
    } else if units[0] < 0xD800 || units[0] > 0xDFFF {
        seq![units[0] as char] + lossy_utf16(units.skip(1))
    } else if units[0] <= 0xDBFF && units.len() > 1 && 0xDC00 <= units[1] <= 0xDFFF {
        seq![(0x1_0000 + (units[0] - 0xD800) * 0x400 + (units[1] - 0xDC00)) as char] + lossy_utf16(units.skip(2))
    } else {
        seq!['\u{FFFD}'] + lossy_utf16(units.skip(1))
    }
}

/// Wraps `std::str::from_utf8`: succeeds exactly on valid UTF-8 and then gives the decoded
/// text. What its error says is named, not stated.
#[verifier::external_body]
pub(crate) fn text_from_utf8(bytes: &[u8]) -> (r: Result<String, String>)
    ensures
        match r {
            Ok(s) => valid_utf8(bytes@) && s@ == decode_utf8(bytes@),
            Err(e) => !valid_utf8(bytes@) && e@ == utf8_error_text(bytes@),
        },
{
    match std::str::from_utf8(bytes) {
        Ok(s) => Ok(s.to_string()),
        Err(e) => Err(e.to_string()),
    }
}

/// Wraps `String::from_utf8_lossy`: on valid UTF-8 the decoded text; otherwise ill-formed
/// parts are replaced, and the whole is named.
#[verifier::external_body]
pub(crate) fn text_from_utf8_lossy(bytes: &[u8]) -> (r: String)
    ensures
        r@ == lossy_utf8(bytes@),
        valid_utf8(bytes@) ==> r@ == decode_utf8(bytes@),
{
    String::from_utf8_lossy(bytes).into_owned()
}

/// Wraps `String::from_utf16_lossy`: decodes UTF-16 and puts U+FFFD in place of each surrogate
/// without its pair.
#[verifier::external_body]
pub(crate) fn text_from_utf16_lossy(units: &[u16]) -> (r: String)
    ensures
        r@ == lossy_utf16(units@),
{
    String::from_utf16_lossy(units)
}

fn digit_char(d: u8) -> (c: char)
    requires
        d < 16,
    ensures
        c == digit(d as int),
{
    if d < 10 {
        (48 + d) as char
    } else {
        (87 + d) as char
    }
}

/// Appends `n` in decimal.
pub fn push_dec(s: &mut String, n: u64)
    ensures
        final(s)@ == old(s)@ + dec(n as nat),
    decreases n,
{
    if n >= 10 {
        push_dec(s, n / 10);
    }
    s.push(digit_char((n % 10) as u8));
    assert(s@ =~= old(s)@ + dec(n as nat));
}

/// Appends `n` in lower-case hexadecimal.
pub fn push_hex(s: &mut String, n: u64)
    ensures
        final(s)@ == old(s)@ + hex(n as nat),
    decreases n,
{
    if n >= 16 {
        push_hex(s, n / 16);
    }
    s.push(digit_char((n % 16) as u8));
    assert(s@ =~= old(s)@ + hex(n as nat));
}

/// Appends `n` in decimal, filled up with zeros to `width`.
pub fn push_padded(s: &mut String, n: u64, width: usize)
    ensures
        final(s)@ == old(s)@ + zero_padded(dec(n as nat), width as nat),
{
    let mut digits = String::new();
    push_dec(&mut digits, n);
    let len: usize = digits.unicode_len();
    push_zeros(s, if len < width { width - len } else { 0 });
    s.append(&digits);
    assert(s@ =~= old(s)@ + zero_padded(dec(n as nat), width as nat));
}

/// Appends `n` in hexadecimal, filled up with zeros to `width`.
pub fn push_padded_hex(s: &mut String, n: u64, width: usize)
    ensures
        final(s)@ == old(s)@ + zero_padded(hex(n as nat), width as nat),
{
    let mut digits = String::new();
    push_hex(&mut digits, n);
    let len: usize = digits.unicode_len();
    push_zeros(s, if len < width { width - len } else { 0 });
    s.append(&digits);
    assert(s@ =~= old(s)@ + zero_padded(hex(n as nat), width as nat));
}

fn push_zeros(s: &mut String, n: usize)
    ensures
        final(s)@ == old(s)@ + Seq::new(n as nat, |i: int| '0'),
{
    let mut k: usize = 0;
    while k < n
        invariant
            k <= n,
            s@ == old(s)@ + Seq::new(k as nat, |i: int| '0'),
        decreases n - k,
    {
        s.push('0');
        k = k + 1;
        assert(s@ =~= old(s)@ + Seq::new(k as nat, |i: int| '0'));
    }
}

/// The characters of `s`.
pub fn chars_of(s: &str) -> (r: Vec<char>)
    ensures
        r@ == s@,
{
    let mut r: Vec<char> = Vec::new();
    for c in it: s.chars()
        invariant
            r@ == it.seq().take(it.index() as int),
    {
        r.push(c);
    }
    assert(r@ =~= s@);
    r
}

/// The text made of `chars`.
pub fn text_of(chars: &[char]) -> (r: String)
    ensures
        r@ == chars@,
{
    let mut r = String::new();
    let mut i: usize = 0;
    while i < chars.len()
        invariant
            i <= chars@.len(),
            r@ == chars@.subrange(0, i as int),
        decreases chars@.len() - i,
    {
        r.push(chars[i]);
        i = i + 1;
        assert(r@ =~= chars@.subrange(0, i as int));
    }
    assert(r@ =~= chars@);
    r
}

/// `prefix`, then `n` in decimal.
pub fn numbered(prefix: &str, n: u64) -> (r: String)
    ensures
        r@ == prefix@ + dec(n as nat),
{
    let mut r = String::from_str(prefix);
    push_dec(&mut r, n);
    r
}

/// `prefix`, then `n` in decimal, then `suffix`.
pub fn with_number(prefix: &str, n: u64, suffix: &str) -> (r: String)
    ensures
        r@ == prefix@ + dec(n as nat) + suffix@,
{
    let mut r = String::from_str(prefix);
    push_dec(&mut r, n);
    r.append(suffix);
    r
}

/// The pieces of `s` between occurrences of `sep`.
pub open spec fn pieces(s: Seq<char>, sep: char) -> Seq<Seq<char>>
    decreases s.len(),
{
    if s.len() == 0 {
        seq![Seq::<char>::empty()]
    } else {
        let before = pieces(s.drop_last(), sep);
        if s.last() == sep {
            before.push(Seq::<char>::empty())
        } else {
            before.drop_last().push(before.last().push(s.last()))
        }
    }
}

/// The pieces of `chars` between occurrences of `sep`.
pub fn split_pieces(chars: &[char], sep: char) -> (r: Vec<Vec<char>>)
    ensures
        r@.map_values(|p: Vec<char>| p@) == pieces(chars@, sep),
        r@.len() > 0,
{
    let mut r: Vec<Vec<char>> = Vec::new();
    let mut cur: Vec<char> = Vec::new();
    let mut i: usize = 0;
    assert(chars@.subrange(0, 0) =~= Seq::<char>::empty());
    while i < chars.len()
        invariant
            i <= chars@.len(),
            r@.map_values(|p: Vec<char>| p@).push(cur@) == pieces(chars@.subrange(0, i as int), sep),
        decreases chars@.len() - i,
    {
        let ghost done = r@.map_values(|p: Vec<char>| p@);
        let ghost piece = cur@;
        assert(chars@.subrange(0, i + 1).drop_last() =~= chars@.subrange(0, i as int));
        if chars[i] == sep {
            r.push(cur);
            cur = Vec::new();
            assert(r@.map_values(|p: Vec<char>| p@) =~= done.push(piece));
        } else {
            cur.push(chars[i]);
            assert(done.push(piece).drop_last() =~= done);
        }
        i = i + 1;
        assert(r@.map_values(|p: Vec<char>| p@).push(cur@) =~= pieces(chars@.subrange(0, i as int), sep));
    }
    assert(chars@.subrange(0, i as int) =~= chars@);
    let ghost done = r@.map_values(|p: Vec<char>| p@);
    let ghost piece = cur@;
    r.push(cur);
    assert(r@.map_values(|p: Vec<char>| p@) =~= done.push(piece));
    r
}

pub open spec fn is_decimal(c: char) -> bool {
    '0' <= c <= '9'
}

pub open spec fn all_decimal(s: Seq<char>) -> bool {
    forall|i: int| 0 <= i < s.len() ==> is_decimal(#[trigger] s[i])
}

/// The number that the decimal digits `s` write.
pub open spec fn decimal_value(s: Seq<char>) -> nat
    decreases s.len(),
{
    if s.len() == 0 {
        0
    } else {
        (10 * decimal_value(s.drop_last()) + (s.last() as int - 48)) as nat
    }
}

/// The byte that `s` writes: decimal digits, with an optional plus sign before them.
pub open spec fn octet(s: Seq<char>) -> Option<u8> {
    let digits = if s.len() > 0 && s[0] == '+' { s.skip(1) } else { s };
    if digits.len() > 0 && all_decimal(digits) && decimal_value(digits) < 256 {
        Some(decimal_value(digits) as u8)
    } else {
        None
    }
}

proof fn lemma_decimal_value_grows(s: Seq<char>, n: int)
    requires
        0 <= n <= s.len(),
        all_decimal(s),
    ensures
        decimal_value(s.take(n)) <= decimal_value(s),
    decreases s.len() - n,
{
    if n < s.len() {
        lemma_decimal_value_grows(s, n + 1);
        assert(s.take(n + 1).drop_last() =~= s.take(n));
        assert(is_decimal(s[n]));
    } else {
        assert(s.take(n) =~= s);
    }
}

/// Reads a byte written in decimal.
pub fn parse_octet(chars: &[char]) -> (r: Option<u8>)
    ensures
        r == octet(chars@),
{
    let start: usize = if chars.len() > 0 && chars[0] == '+' { 1 } else { 0 };
    let ghost digits = chars@.skip(start as int);
    assert(start == 0 ==> digits =~= chars@);
    if start == chars.len() {
        return None;
    }
    let mut i: usize = start;
    let mut value: u16 = 0;
    assert(digits.take(0) =~= Seq::<char>::empty());
    while i < chars.len()
        invariant
            start <= i <= chars@.len(),
            start <= 1,
            digits == chars@.skip(start as int),
            octet(chars@) == (if digits.len() > 0 && all_decimal(digits) && decimal_value(
                digits,
            ) < 256 {
                Some(decimal_value(digits) as u8)
            } else {
                None
            }),
            forall|j: int| 0 <= j < i - start ==> is_decimal(#[trigger] digits[j]),
            value == decimal_value(digits.take(i - start)),
            value < 256,
        decreases chars@.len() - i,
    {
        let c = chars[i];
        assert(digits[i - start] == c);
        if c < '0' || c > '9' {
            assert(!is_decimal(digits[i - start]));
            return None;
        }
        assert(digits.take(i + 1 - start).drop_last() =~= digits.take(i - start));
        value = value * 10 + (c as u32 - 48) as u16;
        i = i + 1;
        if value >= 256 {
            proof {
                if all_decimal(digits) {
                    lemma_decimal_value_grows(digits, i - start);
                }
            }
            return None;
        }
    }
    assert(digits.take(i - start) =~= digits);
    Some(value as u8)
}

/// `c` has the Unicode property White_Space.
pub open spec fn is_white(c: char) -> bool {
    let n = c as u32;
    ||| 0x09 <= n <= 0x0D
    ||| n == 0x20
    ||| n == 0x85
    ||| n == 0xA0
    ||| n == 0x1680
    ||| 0x2000 <= n <= 0x200A
    ||| n == 0x2028
    ||| n == 0x2029
    ||| n == 0x202F
    ||| n == 0x205F
    ||| n == 0x3000
}

/// `s` without the white space at its end.
pub open spec fn trimmed_end(s: Seq<char>) -> Seq<char>
    decreases s.len(),
{
    if s.len() > 0 && is_white(s.last()) { trimmed_end(s.drop_last()) } else { s }
}

/// `s` without the white space at its start.
pub open spec fn trimmed_start(s: Seq<char>) -> Seq<char>
    decreases s.len(),
{
    if s.len() > 0 && is_white(s[0]) { trimmed_start(s.skip(1)) } else { s }
}

/// `s` without the white space around it.
pub open spec fn trimmed_text(s: Seq<char>) -> Seq<char> {
    trimmed_end(trimmed_start(s))
}

fn white(c: char) -> (r: bool)
    ensures
        r == is_white(c),
{
    let n: u32 = c as u32;
    (0x09 <= n && n <= 0x0D) || n == 0x20 || n == 0x85 || n == 0xA0 || n == 0x1680 || (0x2000 <= n && n <= 0x200A) || n
        == 0x2028 || n == 0x2029 || n == 0x202F || n == 0x205F || n == 0x3000
}

/// The characters of `chars` without the white space around them.
pub fn trim_chars(chars: &[char]) -> (r: &[char])
    ensures
        r@ == trimmed_text(chars@),
{
    let ghost s = chars@;
    let mut from: usize = 0;
    assert(s.skip(0) =~= s);
    while from < chars.len() && white(chars[from])
        invariant
            s == chars@,
            from <= s.len(),
            trimmed_start(s.skip(from as int)) == trimmed_start(s),
        decreases s.len() - from,
    {
        assert(s.skip(from as int).skip(1) =~= s.skip(from + 1));
        from = from + 1;
    }
    let ghost rest = s.skip(from as int);
    assert(trimmed_start(s) == rest);
    let mut to: usize = chars.len();
    assert(s.subrange(from as int, to as int) =~= rest);
    while to > from && white(chars[to - 1])
        invariant
            s == chars@,
            from <= to <= s.len(),
            trimmed_end(s.subrange(from as int, to as int)) == trimmed_end(rest),
        decreases to,
    {
        assert(s.subrange(from as int, to as int).drop_last() =~= s.subrange(from as int, to - 1));
        to = to - 1;
    }
    vstd::slice::slice_subrange(chars, from, to)
}

/// `c` with a lower-case ASCII letter made upper-case.
pub open spec fn upper_char(c: char) -> char {
    if 'a' <= c <= 'z' { ((c as u32 - 32) as u32) as char } else { c }
}

/// `s` with its lower-case ASCII letters made upper-case.
pub open spec fn upper(s: Seq<char>) -> Seq<char> {
    s.map_values(|c: char| upper_char(c))
}

/// The characters with lower-case ASCII letters made upper-case.
pub fn upper_chars(chars: &[char]) -> (r: Vec<char>)
    ensures
        r@ == upper(chars@),
{
    let mut r: Vec<char> = Vec::new();
    let mut i: usize = 0;
    while i < chars.len()
        invariant
            i <= chars@.len(),
            r@ =~= upper(chars@.take(i as int)),
        decreases chars@.len() - i,
    {
        let c = chars[i];
        let u = if 'a' <= c && c <= 'z' {
            (c as u8 - 32) as char
        } else {
            c
        };
        r.push(u);
        i = i + 1;
    }
    assert(chars@.take(i as int) =~= chars@);
    r
}

/// `s` starts with `t`.
pub open spec fn starts_with(s: Seq<char>, t: Seq<char>) -> bool {
    s.len() >= t.len() && s.take(t.len() as int) == t
}

/// `s` ends with `t`.
pub open spec fn ends_with(s: Seq<char>, t: Seq<char>) -> bool {
    s.len() >= t.len() && s.skip(s.len() - t.len()) == t
}

/// `t` stands in `s` at `i`.
pub open spec fn stands_at(s: Seq<char>, t: Seq<char>, i: int) -> bool {
    0 <= i && i + t.len() <= s.len() && s.subrange(i, i + t.len()) == t
}

/// `t` stands somewhere in `s`.
pub open spec fn has_text(s: Seq<char>, t: Seq<char>) -> bool {
    exists|i: int| #[trigger] stands_at(s, t, i)
}

/// `c` with an upper-case ASCII letter made lower-case.
pub open spec fn lower_char(c: char) -> char {
    if 'A' <= c <= 'Z' { ((c as u32 + 32) as u32) as char } else { c }
}

/// `s` with its upper-case ASCII letters made lower-case.
pub open spec fn lower(s: Seq<char>) -> Seq<char> {
    s.map_values(|c: char| lower_char(c))
}

/// `t` stands in `s` at `i`.
fn matches_at(s: &[char], t: &[char], i: usize) -> (r: bool)
    requires
        i + t@.len() <= s@.len(),
    ensures
        r == stands_at(s@, t@, i as int),
{
    let mut k: usize = 0;
    while k < t.len()
        invariant
            k <= t@.len(),
            i + t@.len() <= s@.len(),
            s@.subrange(i as int, i + k) =~= t@.take(k as int),
        decreases t@.len() - k,
    {
        assert(i + k < s.len());
        if s[i + k] != t[k] {
            assert(s@.subrange(i as int, i + t@.len())[k as int] != t@[k as int]);
            return false;
        }
        k = k + 1;
        assert(s@.subrange(i as int, i + k) =~= t@.take(k as int));
    }
    assert(t@.take(k as int) =~= t@);
    true
}

pub fn has_prefix(s: &[char], t: &[char]) -> (r: bool)
    ensures
        r == starts_with(s@, t@),
{
    if s.len() < t.len() {
        return false;
    }
    assert(s@.subrange(0, t@.len() as int) =~= s@.take(t@.len() as int));
    matches_at(s, t, 0)
}

/// The characters are those of `t`.
pub fn is_text(chars: &[char], t: &str) -> (r: bool)
    ensures
        r == (chars@ == t@),
{
    let t_chars = chars_of(t);
    let r = chars.len() == t_chars.len() && has_prefix(chars, &t_chars);
    assert(chars@.take(chars@.len() as int) =~= chars@);
    r
}

pub fn has_suffix(s: &[char], t: &[char]) -> (r: bool)
    ensures
        r == ends_with(s@, t@),
{
    if s.len() < t.len() {
        return false;
    }
    let from: usize = s.len() - t.len();
    assert(s@.subrange(from as int, from + t@.len()) =~= s@.skip(from as int));
    matches_at(s, t, from)
}

pub fn contains_text(s: &[char], t: &[char]) -> (r: bool)
    ensures
        r == has_text(s@, t@),
{
    if s.len() < t.len() {
        return false;
    }
    let last: usize = s.len() - t.len();
    let mut i: usize = 0;
    loop
        invariant
            i <= last,
            last + t@.len() == s@.len(),
            forall|j: int| 0 <= j < i ==> !#[trigger] stands_at(s@, t@, j),
        decreases last - i,
    {
        if matches_at(s, t, i) {
            return true;
        }
        if i == last {
            return false;
        }
        i = i + 1;
    }
}

/// The characters with upper-case ASCII letters made lower-case.
pub fn lower_chars(chars: &[char]) -> (r: Vec<char>)
    ensures
        r@ == lower(chars@),
{
    let mut r: Vec<char> = Vec::new();
    let mut i: usize = 0;
    while i < chars.len()
        invariant
            i <= chars@.len(),
            r@ =~= lower(chars@.take(i as int)),
        decreases chars@.len() - i,
    {
        let c = chars[i];
        let u = if 'A' <= c && c <= 'Z' {
            (c as u8 + 32) as char
        } else {
            c
        };
        r.push(u);
        i = i + 1;
    }
    assert(chars@.take(i as int) =~= chars@);
    r
}

/// The place of the first `c` at or behind `i`, or the end.
pub open spec fn char_from(s: Seq<char>, c: char, i: int) -> int
    decreases s.len() - i,
{
    if i < 0 || i >= s.len() {
        s.len() as int
    } else if s[i] == c {
        i
    } else {
        char_from(s, c, i + 1)
    }
}

/// The place of the first `c` at or behind `from`, or the end.
pub fn find_char(s: &[char], c: char, from: usize) -> (r: usize)
    requires
        from <= s@.len(),
    ensures
        r == char_from(s@, c, from as int),
        from <= r <= s@.len(),
{
    let mut i: usize = from;
    while i < s.len() && s[i] != c
        invariant
            from <= i <= s@.len(),
            char_from(s@, c, i as int) == char_from(s@, c, from as int),
        decreases s@.len() - i,
    {
        i = i + 1;
    }
    i
}

/// The decimal numeral of a number is made of digits, and is read as the number.
pub proof fn law_dec_reads_back(n: nat)
    ensures
        dec(n).len() > 0,
        all_decimal(dec(n)),
        decimal_value(dec(n)) == n,
    decreases n,
{
    if n < 10 {
        assert(dec(n).drop_last() =~= Seq::<char>::empty());
        assert(dec(n).last() == digit(n as int));
        assert(decimal_value(dec(n).drop_last()) == 0);
    } else {
        law_dec_reads_back(n / 10);
        assert(dec(n).drop_last() =~= dec(n / 10));
        assert(dec(n).last() == digit((n % 10) as int));
        assert forall|i: int| 0 <= i < dec(n).len() implies is_decimal(#[trigger] dec(n)[i]) by {
            if i < dec(n / 10).len() {
                assert(dec(n)[i] == dec(n / 10)[i]);
            }
        }
    }
}

/// The numeral of a byte is read as the byte.
pub proof fn law_octet_reads_back(b: u8)
    ensures
        octet(dec(b as nat)) == Some(b),
{
    law_dec_reads_back(b as nat);
    assert(is_decimal(dec(b as nat)[0]));
}

/// There is always a piece, and text without the separator only makes the last one longer.
pub proof fn lemma_pieces_append(s: Seq<char>, t: Seq<char>, sep: char)
    requires
        forall|i: int| 0 <= i < t.len() ==> #[trigger] t[i] != sep,
    ensures
        pieces(s, sep).len() > 0,
        pieces(s + t, sep) == pieces(s, sep).drop_last().push(pieces(s, sep).last() + t),
    decreases s.len() + t.len(), t.len(),
{
    if t.len() == 0 {
        if s.len() > 0 {
            lemma_pieces_append(s.drop_last(), t, sep);
        }
        assert(s + t =~= s);
        assert(pieces(s, sep).last() + t =~= pieces(s, sep).last());
        assert(pieces(s, sep) =~= pieces(s, sep).drop_last().push(pieces(s, sep).last()));
    } else {
        let u = t.drop_last();
        lemma_pieces_append(s, u, sep);
        assert((s + t).drop_last() =~= s + u);
        assert((s + t).last() == t.last());
        let before = pieces(s + u, sep);
        assert(before.drop_last() =~= pieces(s, sep).drop_last());
        assert(before.last().push(t.last()) =~= pieces(s, sep).last() + t);
    }
}

} // verus!
