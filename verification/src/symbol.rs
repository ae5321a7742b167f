//! The symbol table of a PLC, as the ADS upload services give it.
use vstd::prelude::*;
use vstd::string::StrSliceExecFns;
use vstd::utf8::{decode_utf8, encode_utf8, valid_utf8};

use crate::dispatcher::low32;
use crate::error::{outcome, AdsError, AdsErrorView};
use crate::text::{text_from_utf8, utf8_error_text};
use crate::wire::{
    find_zero, get_u16, get_u32, le16, le32, put_slice, put_u16, put_u32, u16_at, u32_at, zero_from,
};

verus! {

broadcast use crate::wire::group_wire;

pub const ADSIGRP_SYM_UPLOADINFO: u32 = 0xF00C;

pub const ADSIGRP_SYM_UPLOAD: u32 = 0xF00B;

/// The bytes of an entry before its texts.
pub const SYMBOL_ENTRY_HEADER_SIZE: usize = 30;

/// How many symbols there are, and how many bytes they take.
#[derive(Debug, Clone, Copy, PartialEq, Eq, Structural)]
pub struct AdsSymbolUploadInfo {
    pub symbol_count: u32,
    pub symbol_size: u32,
}

impl View for AdsSymbolUploadInfo {
    type V = AdsSymbolUploadInfo;

    open spec fn view(&self) -> AdsSymbolUploadInfo {
        *self
    }
}

impl AdsSymbolUploadInfo {
    pub open spec fn read(s: Seq<u8>) -> Result<AdsSymbolUploadInfo, AdsErrorView> {
        if s.len() < 8 {
            Err(AdsErrorView::IncompleteMessage { expected: 8, got: s.len() as int })
        } else {
            Ok(AdsSymbolUploadInfo { symbol_count: u32_at(s, 0), symbol_size: u32_at(s, 4) })
        }
    }

    pub open spec fn bytes(self) -> Seq<u8> {
        le32(self.symbol_count) + le32(self.symbol_size)
    }

    pub fn parse(data: &[u8]) -> (r: Result<Self, AdsError>)
        ensures
            outcome(r) == AdsSymbolUploadInfo::read(data@),
    {
        if data.len() < 8 {
            return Err(AdsError::IncompleteMessage { expected: 8, got: data.len() as u64 });
        }
        Ok(AdsSymbolUploadInfo { symbol_count: get_u32(data, 0), symbol_size: get_u32(data, 4) })
    }

    pub fn serialize(&self) -> (r: Vec<u8>)
        ensures
            r@ == self.bytes(),
    {
        let mut buf: Vec<u8> = Vec::new();
        put_u32(&mut buf, self.symbol_count);
        put_u32(&mut buf, self.symbol_size);
        assert(buf@ =~= self.bytes());
        buf
    }
}

/// Upload information read from its own bytes is the information, whatever stands behind them.
pub proof fn law_upload_info_reads_back(info: AdsSymbolUploadInfo, after: Seq<u8>)
    ensures
        AdsSymbolUploadInfo::read(info.bytes() + after) == Ok::<AdsSymbolUploadInfo, AdsErrorView>(info),
{
    let s = info.bytes() + after;
    crate::wire::law_le32_read(info.symbol_count);
    crate::wire::law_le32_read(info.symbol_size);
    assert(s.subrange(0, 4) =~= le32(info.symbol_count));
    assert(s.subrange(4, 8) =~= le32(info.symbol_size));
    crate::wire::lemma_window(s, 0, 4, 0);
    crate::wire::lemma_window(s, 4, 8, 0);
}

/// A symbol: where its value is, what it is, and what it is called.
#[derive(Debug, PartialEq, Eq)]
pub struct AdsSymbolEntry {
    pub index_group: u32,
    pub index_offset: u32,
    pub size: u32,
    pub data_type: u32,
    pub flags: u32,
    pub name: String,
    pub data_type_name: String,
    pub comment: String,
}

pub struct SymbolEntryView {
    pub index_group: u32,
    pub index_offset: u32,
    pub size: u32,
    pub data_type: u32,
    pub flags: u32,
    pub name: Seq<char>,
    pub data_type_name: Seq<char>,
    pub comment: Seq<char>,
}

impl View for AdsSymbolEntry {
    type V = SymbolEntryView;

    open spec fn view(&self) -> SymbolEntryView {
        SymbolEntryView {
            index_group: self.index_group,
            index_offset: self.index_offset,
            size: self.size,
            data_type: self.data_type,
            flags: self.flags,
            name: self.name@,
            data_type_name: self.data_type_name@,
            comment: self.comment@,
        }
    }
}

/// The text before the first zero of a field.
pub open spec fn null_terminated(s: Seq<u8>) -> Result<Seq<char>, AdsErrorView> {
    let text = s.take(zero_from(s, 0));
    if valid_utf8(text) {
        Ok(decode_utf8(text))
    } else {
        Err(AdsErrorView::InvalidStringEncoding(utf8_error_text(text)))
    }
}

/// The three texts of an entry whose header starts at `pos`.
pub open spec fn entry_texts(s: Seq<u8>, pos: int) -> Result<(Seq<char>, Seq<char>, Seq<char>), AdsErrorView> {
    let a = pos + 30;
    let b = a + u16_at(s, pos + 24) + 1;
    let c = b + u16_at(s, pos + 26) + 1;
    let d = c + u16_at(s, pos + 28) + 1;
    match null_terminated(s.subrange(a, b)) {
        Err(e) => Err(e),
        Ok(name) => match null_terminated(s.subrange(b, c)) {
            Err(e) => Err(e),
            Ok(data_type_name) => match null_terminated(s.subrange(c, d)) {
                Err(e) => Err(e),
                Ok(comment) => Ok((name, data_type_name, comment)),
            },
        },
    }
}

/// The bytes that an entry with this header needs.
pub open spec fn entry_needs(s: Seq<u8>, pos: int) -> int {
    30 + u16_at(s, pos + 24) + 1 + u16_at(s, pos + 26) + 1 + u16_at(s, pos + 28) + 1
}

/// The entry that starts at `pos`, and the length that it claims.
pub open spec fn entry_at(s: Seq<u8>, pos: int) -> Result<(SymbolEntryView, u32), AdsErrorView> {
    if s.len() - pos < 30 {
        Err(AdsErrorView::IncompleteMessage { expected: 30, got: s.len() - pos })
    } else if s.len() - pos < entry_needs(s, pos) {
        Err(AdsErrorView::IncompleteMessage { expected: entry_needs(s, pos), got: s.len() - pos })
    } else {
        match entry_texts(s, pos) {
            Err(e) => Err(e),
            Ok((name, data_type_name, comment)) => Ok(
                (
                    SymbolEntryView {
                        index_group: u32_at(s, pos + 4),
                        index_offset: u32_at(s, pos + 8),
                        size: u32_at(s, pos + 12),
                        data_type: u32_at(s, pos + 16),
                        flags: u32_at(s, pos + 20),
                        name,
                        data_type_name,
                        comment,
                    },
                    u32_at(s, pos),
                ),
            ),
        }
    }
}

/// The entries from `pos` on, after those already read. Fewer than four bytes at the end are
/// passed over.
pub open spec fn entries_from(s: Seq<u8>, pos: int, found: Seq<SymbolEntryView>) -> Result<
    Seq<SymbolEntryView>,
    AdsErrorView,
>
    decreases (if pos < s.len() { s.len() - pos } else { 0 }),
{
    if pos + 4 > s.len() {
        Ok(found)
    } else {
        match entry_at(s, pos) {
            Err(e) => Err(e),
            Ok((entry, length)) => if length == 0 {
                Err(AdsErrorView::ParseError("symbol entry with zero length"@))
            } else {
                entries_from(s, pos + length, found.push(entry))
            },
        }
    }
}

/// The length of a text in a length field of 16 bits.
pub open spec fn low16(n: int) -> u16 {
    (n % 0x1_0000) as u16
}

impl SymbolEntryView {
    pub open spec fn length(self) -> int {
        33int + encode_utf8(self.name).len() + encode_utf8(self.data_type_name).len() + encode_utf8(self.comment).len()
    }

    #[verifier::opaque]
    pub open spec fn header(self) -> Seq<u8> {
        le32(low32(self.length())) + le32(self.index_group) + le32(self.index_offset) + le32(self.size) + le32(
            self.data_type,
        ) + le32(self.flags) + le16(low16(encode_utf8(self.name).len() as int)) + le16(
            low16(encode_utf8(self.data_type_name).len() as int),
        ) + le16(low16(encode_utf8(self.comment).len() as int))
    }

    pub open spec fn bytes(self) -> Seq<u8> {
        self.header() + field_bytes(self.name) + field_bytes(self.data_type_name) + field_bytes(self.comment)
    }

    /// The texts fit their length fields and hold no zero character.
    pub open spec fn writable(self) -> bool {
        fits_field(self.name) && fits_field(self.data_type_name) && fits_field(self.comment)
    }
}

/// A text with the zero that ends it.
pub open spec fn field_bytes(s: Seq<char>) -> Seq<u8> {
    encode_utf8(s).push(0)
}

/// A text that fits its length field and holds no zero character.
pub open spec fn fits_field(s: Seq<char>) -> bool {
    encode_utf8(s).len() <= 0xFFFF && forall|i: int| 0 <= i < s.len() ==> #[trigger] s[i] != '\0'
}

/// The bytes of a list of entries.
pub open spec fn table_bytes(entries: Seq<SymbolEntryView>) -> Seq<u8>
    decreases entries.len(),
{
    if entries.len() == 0 {
        Seq::empty()
    } else {
        table_bytes(entries.drop_last()) + entries.last().bytes()
    }
}

proof fn lemma_scalar_bytes(c: u32)
    by (bit_vector)
    requires
        c != 0,
    ensures
        c <= 0x7F ==> (c & 0x7F) as u8 != 0,
        0xC0u8 | ((c >> 6) & 0x1F) as u8 != 0,
        0xE0u8 | ((c >> 12) & 0x0F) as u8 != 0,
        0xF0u8 | ((c >> 18) & 0x7) as u8 != 0,
        0x80u8 | (c & 0x3F) as u8 != 0,
        0x80u8 | ((c >> 6) & 0x3F) as u8 != 0,
        0x80u8 | ((c >> 12) & 0x3F) as u8 != 0,
{
}

proof fn lemma_scalar_has_no_zero(c: char)
    requires
        c != '\0',
    ensures
        forall|i: int|
            0 <= i < vstd::utf8::encode_scalar(c as u32).len() ==> #[trigger] vstd::utf8::encode_scalar(c as u32)[i]
                != 0,
{
    lemma_scalar_bytes(c as u32);
}

/// The encoding of a text without zero characters has no zero byte.
proof fn lemma_no_zero_bytes(s: Seq<char>)
    requires
        forall|i: int| 0 <= i < s.len() ==> #[trigger] s[i] != '\0',
    ensures
        forall|i: int| 0 <= i < encode_utf8(s).len() ==> #[trigger] encode_utf8(s)[i] != 0,
    decreases s.len(),
{
    if s.len() > 0 {
        let first = vstd::utf8::encode_scalar(s[0] as u32);
        lemma_scalar_has_no_zero(s[0]);
        lemma_no_zero_bytes(s.drop_first());
        let rest = encode_utf8(s.drop_first());
        assert forall|i: int| 0 <= i < encode_utf8(s).len() implies #[trigger] encode_utf8(s)[i] != 0 by {
            if i < first.len() {
                assert(encode_utf8(s)[i] == first[i]);
            } else {
                assert(encode_utf8(s)[i] == rest[i - first.len()]);
            }
        }
    }
}

/// A text with a zero behind it is read back.
proof fn lemma_field_reads_back(text: Seq<char>)
    requires
        fits_field(text),
    ensures
        null_terminated(field_bytes(text)) == Ok::<Seq<char>, AdsErrorView>(text),
{
    let field = field_bytes(text);
    let b = encode_utf8(text);
    lemma_no_zero_bytes(text);
    assert forall|i: int| 0 <= i < b.len() implies #[trigger] field[i] != 0 by {
        assert(field[i] == b[i]);
    }
    crate::wire::lemma_zero_at(field, 0, b.len() as int);
    assert(field.take(b.len() as int) =~= b);
    vstd::utf8::encode_utf8_valid_utf8(text);
    vstd::utf8::encode_utf8_decode_utf8(text);
}

proof fn lemma_header_reads_back(e: SymbolEntryView, s: Seq<u8>, pos: int)
    requires
        0 <= pos,
        pos + 30 <= s.len(),
        s.subrange(pos, pos + 30) == e.header(),
    ensures
        e.header().len() == 30,
        u32_at(s, pos) == low32(e.length()),
        u32_at(s, pos + 4) == e.index_group,
        u32_at(s, pos + 8) == e.index_offset,
        u32_at(s, pos + 12) == e.size,
        u32_at(s, pos + 16) == e.data_type,
        u32_at(s, pos + 20) == e.flags,
        u16_at(s, pos + 24) == low16(encode_utf8(e.name).len() as int),
        u16_at(s, pos + 26) == low16(encode_utf8(e.data_type_name).len() as int),
        u16_at(s, pos + 28) == low16(encode_utf8(e.comment).len() as int),
{
    reveal(SymbolEntryView::header);
    let h = e.header();
    lemma_dword_in(h, 0, low32(e.length()));
    lemma_dword_in(h, 4, e.index_group);
    lemma_dword_in(h, 8, e.index_offset);
    lemma_dword_in(h, 12, e.size);
    lemma_dword_in(h, 16, e.data_type);
    lemma_dword_in(h, 20, e.flags);
    lemma_word_in(h, 24, low16(encode_utf8(e.name).len() as int));
    lemma_word_in(h, 26, low16(encode_utf8(e.data_type_name).len() as int));
    lemma_word_in(h, 28, low16(encode_utf8(e.comment).len() as int));
    crate::wire::lemma_window(s, pos, pos + 30, 0);
    crate::wire::lemma_window(s, pos, pos + 30, 4);
    crate::wire::lemma_window(s, pos, pos + 30, 8);
    crate::wire::lemma_window(s, pos, pos + 30, 12);
    crate::wire::lemma_window(s, pos, pos + 30, 16);
    crate::wire::lemma_window(s, pos, pos + 30, 20);
    crate::wire::lemma_window(s, pos, pos + 30, 24);
    crate::wire::lemma_window(s, pos, pos + 30, 26);
    crate::wire::lemma_window(s, pos, pos + 30, 28);
}

proof fn lemma_dword_in(h: Seq<u8>, at: int, x: u32)
    ensures
        0 <= at && at + 4 <= h.len() && h.subrange(at, at + 4) =~= le32(x) ==> u32_at(h, at) == x,
{
    crate::wire::law_le32_read(x);
    if 0 <= at && at + 4 <= h.len() && h.subrange(at, at + 4) =~= le32(x) {
        crate::wire::lemma_window(h, at, at + 4, 0);
    }
}

proof fn lemma_word_in(h: Seq<u8>, at: int, x: u16)
    ensures
        0 <= at && at + 2 <= h.len() && h.subrange(at, at + 2) =~= le16(x) ==> u16_at(h, at) == x,
{
    crate::wire::law_le16_read(x);
    if 0 <= at && at + 2 <= h.len() && h.subrange(at, at + 2) =~= le16(x) {
        crate::wire::lemma_window(h, at, at + 2, 0);
    }
}

/// An entry read from its own bytes, whatever stands around them, is the entry, and it claims
/// the length of its bytes.
pub proof fn law_entry_reads_back(e: SymbolEntryView, before: Seq<u8>, after: Seq<u8>)
    requires
        e.writable(),
    ensures
        e.bytes().len() == e.length(),
        entry_at(before + e.bytes() + after, before.len() as int) == Ok::<(SymbolEntryView, u32), AdsErrorView>(
            (e, e.length() as u32),
        ),
{
    let s = before + e.bytes() + after;
    let pos = before.len() as int;
    lemma_header_len(e);
    lemma_parts(
        before,
        e.header(),
        field_bytes(e.name),
        field_bytes(e.data_type_name),
        field_bytes(e.comment),
        after,
    );
    lemma_entry_reads_back(e, s, pos);
}

proof fn lemma_entry_reads_back(e: SymbolEntryView, s: Seq<u8>, pos: int)
    requires
        e.writable(),
        0 <= pos,
        pos + e.length() <= s.len(),
        s.subrange(pos, pos + 30) == e.header(),
        ({
            let a = pos + 30;
            let b = a + field_bytes(e.name).len();
            let c = b + field_bytes(e.data_type_name).len();
            let d = c + field_bytes(e.comment).len();
            &&& s.subrange(a, b) == field_bytes(e.name)
            &&& s.subrange(b, c) == field_bytes(e.data_type_name)
            &&& s.subrange(c, d) == field_bytes(e.comment)
        }),
    ensures
        entry_at(s, pos) == Ok::<(SymbolEntryView, u32), AdsErrorView>((e, e.length() as u32)),
{
    lemma_header_reads_back(e, s, pos);
    lemma_field_reads_back(e.name);
    lemma_field_reads_back(e.data_type_name);
    lemma_field_reads_back(e.comment);
    assert(u16_at(s, pos + 24) == encode_utf8(e.name).len());
    assert(u16_at(s, pos + 26) == encode_utf8(e.data_type_name).len());
    assert(u16_at(s, pos + 28) == encode_utf8(e.comment).len());
    assert(entry_texts(s, pos) == Ok::<(Seq<char>, Seq<char>, Seq<char>), AdsErrorView>(
        (e.name, e.data_type_name, e.comment),
    ));
}

proof fn lemma_header_len(e: SymbolEntryView)
    ensures
        e.header().len() == 30,
{
    reveal(SymbolEntryView::header);
}

/// Each of four parts is found again behind what stands before it.
proof fn lemma_parts(before: Seq<u8>, a: Seq<u8>, b: Seq<u8>, c: Seq<u8>, d: Seq<u8>, after: Seq<u8>)
    ensures
        ({
            let s = before + (a + b + c + d) + after;
            let p = before.len() as int;
            let q = p + a.len();
            let r = q + b.len();
            let t = r + c.len();
            let u = t + d.len();
            &&& u <= s.len()
            &&& s.subrange(p, q) == a
            &&& s.subrange(q, r) == b
            &&& s.subrange(r, t) == c
            &&& s.subrange(t, u) == d
        }),
{
    let s = before + (a + b + c + d) + after;
    let p = before.len() as int;
    let q = p + a.len();
    let r = q + b.len();
    let t = r + c.len();
    let u = t + d.len();
    assert(s.subrange(p, q) =~= a);
    assert(s.subrange(q, r) =~= b);
    assert(s.subrange(r, t) =~= c);
    assert(s.subrange(t, u) =~= d);
}

proof fn lemma_bytes_start(e: SymbolEntryView)
    ensures
        e.bytes().len() == e.length(),
        e.bytes().subrange(0, 30) == e.header(),
{
    lemma_header_len(e);
    let b = field_bytes(e.name);
    let c = field_bytes(e.data_type_name);
    let d = field_bytes(e.comment);
    assert((e.header() + b + c + d).subrange(0, 30) =~= e.header());
}

/// An entry that is cut short is incomplete: it says how many bytes it needs and how many there
/// are.
pub proof fn law_cut_entry_is_incomplete(e: SymbolEntryView, n: int)
    requires
        e.writable(),
        0 <= n < e.bytes().len(),
    ensures
        entry_at(e.bytes().take(n), 0) == Err::<(SymbolEntryView, u32), AdsErrorView>(
            AdsErrorView::IncompleteMessage { expected: if n < 30 { 30 } else { e.length() }, got: n },
        ),
{
    let all = e.bytes();
    let s = all.take(n);
    lemma_bytes_start(e);
    if n >= 30 {
        assert(s.subrange(0, 30) =~= all.subrange(0, 30));
        lemma_header_reads_back(e, s, 0);
        assert(entry_needs(s, 0) == e.length());
    }
}

/// A table read from the bytes of its entries has those entries, in order, also with up to three
/// bytes behind them.
pub proof fn law_table_reads_back(entries: Seq<SymbolEntryView>, after: Seq<u8>)
    requires
        forall|i: int| 0 <= i < entries.len() ==> (#[trigger] entries[i]).writable(),
        after.len() < 4,
    ensures
        entries_from(table_bytes(entries) + after, 0, Seq::empty()) == Ok::<Seq<SymbolEntryView>, AdsErrorView>(
            entries,
        ),
{
    lemma_table_rest(entries, 0, after);
    assert(entries.take(0) =~= Seq::empty());
    assert(table_bytes(entries.take(0)) =~= Seq::empty());
}

/// With the first `n` entries read, the rest of the table gives the rest of the entries.
proof fn lemma_table_rest(entries: Seq<SymbolEntryView>, n: int, after: Seq<u8>)
    requires
        0 <= n <= entries.len(),
        after.len() < 4,
        forall|i: int| 0 <= i < entries.len() ==> (#[trigger] entries[i]).writable(),
    ensures
        entries_from(table_bytes(entries) + after, table_bytes(entries.take(n)).len() as int, entries.take(n)) == Ok::<
            Seq<SymbolEntryView>,
            AdsErrorView,
        >(entries),
    decreases entries.len() - n,
{
    let s = table_bytes(entries) + after;
    let at = table_bytes(entries.take(n)).len() as int;
    if n == entries.len() {
        assert(entries.take(n) =~= entries);
    } else {
        lemma_entry_is_next(entries, n, after);
        lemma_entry_is_read(s, at, entries.take(n));
        assert(entries.take(n + 1) =~= entries.take(n).push(entries[n]));
        lemma_table_rest(entries, n + 1, after);
    }
}

/// Behind `n` entries the next one is read, up to where the one after it starts.
proof fn lemma_entry_is_next(entries: Seq<SymbolEntryView>, n: int, after: Seq<u8>)
    requires
        0 <= n < entries.len(),
        entries[n].writable(),
    ensures
        ({
            let s = table_bytes(entries) + after;
            let at = table_bytes(entries.take(n)).len() as int;
            let next = table_bytes(entries.take(n + 1)).len() as int;
            &&& at + 4 <= s.len()
            &&& at < next
            &&& entry_at(s, at) == Ok::<(SymbolEntryView, u32), AdsErrorView>((entries[n], (next - at) as u32))
            &&& next - at <= u32::MAX
        }),
{
    let s = table_bytes(entries) + after;
    let done = table_bytes(entries.take(n));
    let e = entries[n];
    assert(entries.take(n + 1).drop_last() =~= entries.take(n));
    assert(entries.take(n + 1).last() == e);
    lemma_table_prefix(entries, n + 1);
    let rest = s.skip((done + e.bytes()).len() as int);
    assert(s =~= done + e.bytes() + rest);
    law_entry_reads_back(e, done, rest);
}

proof fn lemma_entry_is_read(s: Seq<u8>, pos: int, found: Seq<SymbolEntryView>)
    requires
        pos + 4 <= s.len(),
        entry_at(s, pos) is Ok,
        entry_at(s, pos)->Ok_0.1 != 0,
    ensures
        entries_from(s, pos, found) == entries_from(
            s,
            pos + entry_at(s, pos)->Ok_0.1,
            found.push(entry_at(s, pos)->Ok_0.0),
        ),
{
}

proof fn lemma_table_prefix(entries: Seq<SymbolEntryView>, n: int)
    requires
        0 <= n <= entries.len(),
    ensures
        table_bytes(entries.take(n)).len() <= table_bytes(entries).len(),
        table_bytes(entries).take(table_bytes(entries.take(n)).len() as int) == table_bytes(entries.take(n)),
    decreases entries.len(),
{
    if n == entries.len() {
        assert(entries.take(n) =~= entries);
        assert(table_bytes(entries).take(table_bytes(entries).len() as int) =~= table_bytes(entries));
    } else {
        let front = entries.drop_last();
        lemma_table_prefix(front, n);
        assert(front.take(n) =~= entries.take(n));
        let k = table_bytes(entries.take(n)).len() as int;
        assert(table_bytes(entries).take(k) =~= table_bytes(front).take(k));
    }
}

fn parse_null_terminated_string(data: &[u8]) -> (r: Result<String, AdsError>)
    ensures
        outcome(r) == null_terminated(data@),
{
    let end: usize = find_zero(data);
    assert(data@.subrange(0, end as int) =~= data@.take(end as int));
    match text_from_utf8(vstd::slice::slice_subrange(data, 0, end)) {
        Ok(text) => Ok(text),
        Err(e) => Err(AdsError::InvalidStringEncoding(e)),
    }
}

/// Reads the entry that starts at `pos`; gives it and the length that it claims.
fn parse_entry(data: &[u8], pos: usize) -> (r: Result<(AdsSymbolEntry, u32), AdsError>)
    requires
        pos <= data@.len(),
    ensures
        match r {
            Ok((e, n)) => entry_at(data@, pos as int) == Ok::<(SymbolEntryView, u32), AdsErrorView>((e@, n)),
            Err(e) => entry_at(data@, pos as int) == Err::<(SymbolEntryView, u32), AdsErrorView>(e@),
        },
{
    let left: usize = data.len() - pos;
    if left < SYMBOL_ENTRY_HEADER_SIZE {
        return Err(AdsError::IncompleteMessage { expected: 30, got: left as u64 });
    }
    let name_length: usize = get_u16(data, pos + 24) as usize;
    let type_length: usize = get_u16(data, pos + 26) as usize;
    let comment_length: usize = get_u16(data, pos + 28) as usize;
    let needed: usize = SYMBOL_ENTRY_HEADER_SIZE + (name_length + 1) + (type_length + 1) + (comment_length + 1);
    if left < needed {
        return Err(AdsError::IncompleteMessage { expected: needed as u64, got: left as u64 });
    }
    let a: usize = pos + SYMBOL_ENTRY_HEADER_SIZE;
    let b: usize = a + name_length + 1;
    let c: usize = b + type_length + 1;
    let d: usize = c + comment_length + 1;
    let name = match parse_null_terminated_string(vstd::slice::slice_subrange(data, a, b)) {
        Ok(t) => t,
        Err(e) => {
            return Err(e);
        },
    };
    let data_type_name = match parse_null_terminated_string(vstd::slice::slice_subrange(data, b, c)) {
        Ok(t) => t,
        Err(e) => {
            return Err(e);
        },
    };
    let comment = match parse_null_terminated_string(vstd::slice::slice_subrange(data, c, d)) {
        Ok(t) => t,
        Err(e) => {
            return Err(e);
        },
    };
    Ok(
        (
            AdsSymbolEntry {
                index_group: get_u32(data, pos + 4),
                index_offset: get_u32(data, pos + 8),
                size: get_u32(data, pos + 12),
                data_type: get_u32(data, pos + 16),
                flags: get_u32(data, pos + 20),
                name,
                data_type_name,
                comment,
            },
            get_u32(data, pos),
        ),
    )
}

impl AdsSymbolEntry {
    /// Reads the entry at the start of `data`; gives it and the length that it claims.
    pub fn parse(data: &[u8]) -> (r: Result<(Self, usize), AdsError>)
        ensures
            match r {
                Ok((e, n)) => entry_at(data@, 0) matches Ok((entry, length)) && entry == e@ && length == n,
                Err(e) => entry_at(data@, 0) == Err::<(SymbolEntryView, u32), AdsErrorView>(e@),
            },
    {
        match parse_entry(data, 0) {
            Ok((e, n)) => Ok((e, n as usize)),
            Err(e) => Err(e),
        }
    }

    pub fn serialize(&self) -> (r: Vec<u8>)
        ensures
            r@ == self@.bytes(),
    {
        let name = self.name.as_str().as_bytes();
        let data_type_name = self.data_type_name.as_str().as_bytes();
        let comment = self.comment.as_str().as_bytes();
        let n: u64 = name.len() as u64;
        let t: u64 = data_type_name.len() as u64;
        let c: u64 = comment.len() as u64;
        let length: u128 = 33 + n as u128 + t as u128 + c as u128;
        let mut buf: Vec<u8> = Vec::new();
        proof {
            reveal(SymbolEntryView::header);
        }
        put_u32(&mut buf, (length % 0x1_0000_0000) as u32);
        put_u32(&mut buf, self.index_group);
        put_u32(&mut buf, self.index_offset);
        put_u32(&mut buf, self.size);
        put_u32(&mut buf, self.data_type);
        put_u32(&mut buf, self.flags);
        put_u16(&mut buf, (n % 0x1_0000) as u16);
        put_u16(&mut buf, (t % 0x1_0000) as u16);
        put_u16(&mut buf, (c % 0x1_0000) as u16);
        assert(buf@ =~= self@.header());
        put_slice(&mut buf, name);
        buf.push(0);
        put_slice(&mut buf, data_type_name);
        buf.push(0);
        put_slice(&mut buf, comment);
        buf.push(0);
        assert(buf@ =~= self@.bytes());
        buf
    }
}

pub open spec fn entry_views(entries: Seq<AdsSymbolEntry>) -> Seq<SymbolEntryView> {
    entries.map_values(|e: AdsSymbolEntry| e@)
}

/// Reads a whole table.
pub fn parse_symbol_table(data: &[u8]) -> (r: Result<Vec<AdsSymbolEntry>, AdsError>)
    ensures
        match r {
            Ok(v) => entries_from(data@, 0, Seq::empty()) == Ok::<Seq<SymbolEntryView>, AdsErrorView>(
                entry_views(v@),
            ),
            Err(e) => entries_from(data@, 0, Seq::empty()) == Err::<Seq<SymbolEntryView>, AdsErrorView>(e@),
        },
{
    let ghost s = data@;
    let ghost all = entries_from(s, 0, Seq::empty());
    let mut symbols: Vec<AdsSymbolEntry> = Vec::new();
    let mut offset: usize = 0;
    assert(entry_views(symbols@) =~= Seq::empty());
    while data.len() - offset >= 4
        invariant
            s == data@,
            offset <= s.len(),
            all == entries_from(s, 0, Seq::empty()),
            entries_from(s, offset as int, entry_views(symbols@)) == all,
        decreases s.len() - offset,
    {
        match parse_entry(data, offset) {
            Err(e) => {
                return Err(e);
            },
            Ok((entry, consumed)) => {
                if consumed == 0 {
                    return Err(AdsError::ParseError(String::from_str("symbol entry with zero length")));
                }
                let ghost view = entry@;
                let ghost before = symbols@;
                symbols.push(entry);
                assert(entry_views(symbols@) =~= entry_views(before).push(view));
                proof {
                    let next = offset + consumed;
                    assert(entries_from(s, next, entry_views(symbols@)) == all);
                    if next >= s.len() {
                        assert(entries_from(s, s.len() as int, entry_views(symbols@)) == entries_from(
                            s,
                            next,
                            entry_views(symbols@),
                        ));
                    }
                }
                let left: usize = data.len() - offset;
                offset = if consumed as usize >= left {
                    data.len()
                } else {
                    offset + consumed as usize
                };
            },
        }
    }
    Ok(symbols)
}

} // verus!
