//! Symbol uploads are read back from how they stand on the wire.
use vstd::prelude::*;
use vstd::utf8::{encode_utf8, encode_utf8_decode_utf8, encode_utf8_valid_utf8};

use crate::client::browse::{entry_end, node_at, nodes_from, symbol_text, uploaded, SymbolNodeView, UploadInfo};
use crate::client::error::ClientErrorView;
use crate::encoding::{lemma_dword_read, lemma_stands_split, lemma_word_read, stands};
use crate::symbol::{field_bytes, table_bytes, SymbolEntryView};
use crate::wire::{le16, le32, u16_at, u32_at};

verus! {

broadcast use crate::wire::group_wire;

/// A symbol, the bytes that stand behind its name and its type, and what follows its comment
/// within the entry.
pub struct WireSymbol {
    pub node: SymbolNodeView,
    pub after_name: u8,
    pub after_type: u8,
    pub more: Seq<u8>,
}

impl WireSymbol {
    pub open spec fn length(self) -> int {
        32int + encode_utf8(self.node.name).len() + encode_utf8(self.node.data_type_name).len() + encode_utf8(
            self.node.comment,
        ).len() + self.more.len()
    }

    pub open spec fn writable(self) -> bool {
        &&& encode_utf8(self.node.name).len() <= 0xFFFF
        &&& encode_utf8(self.node.data_type_name).len() <= 0xFFFF
        &&& encode_utf8(self.node.comment).len() <= 0xFFFF
        &&& self.length() <= u32::MAX
    }

    pub open spec fn numbers(self) -> Seq<u8> {
        le32(self.length() as u32) + (le32(self.node.igroup) + (le32(self.node.ioffset) + (le32(self.node.size) + (
        le32(self.node.datatype) + le32(self.node.flags)))))
    }

    pub open spec fn lengths(self) -> Seq<u8> {
        le16(encode_utf8(self.node.name).len() as u16) + (le16(encode_utf8(self.node.data_type_name).len() as u16)
            + le16(encode_utf8(self.node.comment).len() as u16))
    }

    pub open spec fn texts(self) -> Seq<u8> {
        encode_utf8(self.node.name) + (seq![self.after_name] + (encode_utf8(self.node.data_type_name) + (
        seq![self.after_type] + (encode_utf8(self.node.comment) + self.more))))
    }

    pub open spec fn bytes(self) -> Seq<u8> {
        self.numbers() + (self.lengths() + self.texts())
    }
}

pub open spec fn symbols_bytes(all: Seq<WireSymbol>) -> Seq<u8>
    decreases all.len(),
{
    if all.len() == 0 {
        Seq::empty()
    } else {
        all[0].bytes() + symbols_bytes(all.skip(1))
    }
}

pub open spec fn symbols_read(all: Seq<WireSymbol>) -> Seq<SymbolNodeView> {
    all.map_values(|w: WireSymbol| w.node)
}

proof fn lemma_encoded_text(s: Seq<u8>, p: int, t: Seq<char>)
    requires
        stands(s, p, encode_utf8(t)),
    ensures
        symbol_text(s.subrange(p, p + encode_utf8(t).len())) == Ok::<Seq<char>, ClientErrorView>(t),
{
    encode_utf8_valid_utf8(t);
    encode_utf8_decode_utf8(t);
}

proof fn lemma_numbers_at(s: Seq<u8>, p: int, w: WireSymbol)
    requires
        stands(s, p, w.numbers()),
        stands(s, p + 24, w.lengths()),
        w.writable(),
    ensures
        u32_at(s, p) == w.length(),
        u32_at(s, p + 4) == w.node.igroup,
        u32_at(s, p + 8) == w.node.ioffset,
        u32_at(s, p + 12) == w.node.size,
        u32_at(s, p + 16) == w.node.datatype,
        u32_at(s, p + 20) == w.node.flags,
        u16_at(s, p + 24) == encode_utf8(w.node.name).len(),
        u16_at(s, p + 26) == encode_utf8(w.node.data_type_name).len(),
        u16_at(s, p + 28) == encode_utf8(w.node.comment).len(),
{
    let n = w.node;
    let name = encode_utf8(n.name).len() as u16;
    let kind = encode_utf8(n.data_type_name).len() as u16;
    let comment = encode_utf8(n.comment).len() as u16;
    let d = le32(n.datatype) + le32(n.flags);
    lemma_stands_split(s, p, le32(w.length() as u32), le32(n.igroup) + (le32(n.ioffset) + (le32(n.size) + d)));
    lemma_stands_split(s, p + 4, le32(n.igroup), le32(n.ioffset) + (le32(n.size) + d));
    lemma_stands_split(s, p + 8, le32(n.ioffset), le32(n.size) + d);
    lemma_stands_split(s, p + 12, le32(n.size), d);
    lemma_stands_split(s, p + 16, le32(n.datatype), le32(n.flags));
    lemma_stands_split(s, p + 24, le16(name), le16(kind) + le16(comment));
    lemma_stands_split(s, p + 26, le16(kind), le16(comment));
    lemma_dword_read(s, p, w.length() as u32);
    lemma_dword_read(s, p + 4, n.igroup);
    lemma_dword_read(s, p + 8, n.ioffset);
    lemma_dword_read(s, p + 12, n.size);
    lemma_dword_read(s, p + 16, n.datatype);
    lemma_dword_read(s, p + 20, n.flags);
    lemma_word_read(s, p + 24, name);
    lemma_word_read(s, p + 26, kind);
    lemma_word_read(s, p + 28, comment);
}

proof fn lemma_node_at(s: Seq<u8>, p: int, w: WireSymbol)
    requires
        stands(s, p, w.bytes()),
        w.writable(),
        s.len() <= usize::MAX,
    ensures
        w.bytes().len() == w.length(),
        entry_end(s, p) == p + w.length(),
        node_at(s, p) == Ok::<SymbolNodeView, ClientErrorView>(w.node),
{
    let n = w.node;
    let name = encode_utf8(n.name);
    let kind = encode_utf8(n.data_type_name);
    let comment = encode_utf8(n.comment);
    let d = seq![w.after_type] + (comment + w.more);
    let a = p + 30;
    let b = a + name.len();
    let c = b + 1 + kind.len();
    assert(w.numbers().len() == 24 && w.lengths().len() == 6);
    lemma_stands_split(s, p, w.numbers(), w.lengths() + w.texts());
    lemma_stands_split(s, p + 24, w.lengths(), w.texts());
    lemma_stands_split(s, a, name, seq![w.after_name] + (kind + d));
    lemma_stands_split(s, b, seq![w.after_name], kind + d);
    lemma_stands_split(s, b + 1, kind, d);
    lemma_stands_split(s, c, seq![w.after_type], comment + w.more);
    lemma_stands_split(s, c + 1, comment, w.more);
    lemma_numbers_at(s, p, w);
    lemma_encoded_text(s, a, n.name);
    lemma_encoded_text(s, b + 1, n.data_type_name);
    lemma_encoded_text(s, c + 1, n.comment);
}

proof fn lemma_nodes_from(s: Seq<u8>, p: int, all: Seq<WireSymbol>, count: int, found: Seq<SymbolNodeView>)
    requires
        stands(s, p, symbols_bytes(all)),
        forall|i: int| 0 <= i < all.len() ==> (#[trigger] all[i]).writable(),
        s.len() <= usize::MAX,
        found.len() <= count,
        count <= found.len() + all.len() || s.len() < p + symbols_bytes(all).len() + 30,
    ensures
        nodes_from(s, p, count, found) == Ok::<Seq<SymbolNodeView>, ClientErrorView>(
            found + first_of(symbols_read(all), count - found.len()),
        ),
    decreases all.len(),
{
    if all.len() == 0 || found.len() == count {
        assert(found + first_of(symbols_read(all), count - found.len()) =~= found);
    } else {
        let w = all[0];
        let rest = all.skip(1);
        assert forall|i: int| 0 <= i < rest.len() implies (#[trigger] rest[i]).writable() by {
            assert(rest[i] == all[i + 1]);
        }
        lemma_stands_split(s, p, w.bytes(), symbols_bytes(rest));
        lemma_node_at(s, p, w);
        lemma_nodes_from(s, p + w.length(), rest, count, found.push(w.node));
        assert(found.push(w.node) + first_of(symbols_read(rest), count - found.len() - 1) =~= found + first_of(
            symbols_read(all),
            count - found.len(),
        ));
    }
}

/// The first `n` elements, or all where there are fewer.
pub open spec fn first_of<A>(all: Seq<A>, n: int) -> Seq<A> {
    if n <= all.len() { all.take(n) } else { all }
}

/// An upload gives the symbols that were written into it, in order, and no more than were
/// announced; also where an entry holds more than is read, and where other bytes follow that are
/// not reached: because no more symbols were announced, or because they are too few for another.
pub proof fn law_upload_reads_back(all: Seq<WireSymbol>, after: Seq<u8>, info: UploadInfo)
    requires
        forall|i: int| 0 <= i < all.len() ==> (#[trigger] all[i]).writable(),
        symbols_bytes(all).len() + after.len() <= usize::MAX,
        info.symbol_count <= all.len() || after.len() < 30,
        info.symbol_length <= symbols_bytes(all).len() + after.len(),
    ensures
        uploaded(symbols_bytes(all) + after, info) == Ok::<Seq<SymbolNodeView>, ClientErrorView>(
            first_of(symbols_read(all), info.symbol_count as int),
        ),
{
    let s = symbols_bytes(all) + after;
    assert(s.subrange(0, symbols_bytes(all).len() as int) =~= symbols_bytes(all));
    lemma_nodes_from(s, 0, all, info.symbol_count as int, Seq::empty());
    let read = first_of(symbols_read(all), info.symbol_count as int);
    assert(Seq::<SymbolNodeView>::empty() + read =~= read);
}

/// The node of an entry of a symbol table.
pub open spec fn node_of(e: SymbolEntryView) -> SymbolNodeView {
    SymbolNodeView {
        name: e.name,
        data_type_name: e.data_type_name,
        comment: e.comment,
        igroup: e.index_group,
        ioffset: e.index_offset,
        size: e.size,
        datatype: e.data_type,
        flags: e.flags,
    }
}

/// The texts fit their length fields.
pub open spec fn texts_fit(e: SymbolEntryView) -> bool {
    encode_utf8(e.name).len() <= 0xFFFF && encode_utf8(e.data_type_name).len() <= 0xFFFF && encode_utf8(e.comment).len()
        <= 0xFFFF
}

spec fn wire_symbol(e: SymbolEntryView) -> WireSymbol {
    WireSymbol { node: node_of(e), after_name: 0, after_type: 0, more: seq![0u8] }
}

spec fn wire_symbols(entries: Seq<SymbolEntryView>) -> Seq<WireSymbol> {
    entries.map_values(|e: SymbolEntryView| wire_symbol(e))
}

proof fn lemma_wire_symbol(e: SymbolEntryView)
    requires
        texts_fit(e),
    ensures
        wire_symbol(e).writable(),
        wire_symbol(e).bytes() == e.bytes(),
{
    let w = wire_symbol(e);
    reveal(SymbolEntryView::header);
    assert(w.numbers() + w.lengths() =~= e.header());
    assert(w.bytes() =~= w.numbers() + w.lengths() + w.texts());
    assert(w.texts() =~= field_bytes(e.name) + field_bytes(e.data_type_name) + field_bytes(e.comment));
    assert(w.bytes() =~= e.bytes());
}

proof fn lemma_symbols_last(all: Seq<WireSymbol>)
    requires
        all.len() > 0,
    ensures
        symbols_bytes(all) == symbols_bytes(all.drop_last()) + all.last().bytes(),
    decreases all.len(),
{
    if all.len() > 1 {
        let rest = all.skip(1);
        lemma_symbols_last(rest);
        assert(rest.drop_last() =~= all.drop_last().skip(1));
        assert(symbols_bytes(all) =~= symbols_bytes(all.drop_last()) + all.last().bytes());
    } else {
        assert(all.skip(1) =~= Seq::empty());
        assert(all.drop_last() =~= Seq::empty());
        assert(symbols_bytes(all) =~= symbols_bytes(all.drop_last()) + all.last().bytes());
    }
}

proof fn lemma_table_as_symbols(entries: Seq<SymbolEntryView>)
    requires
        forall|i: int| 0 <= i < entries.len() ==> texts_fit(#[trigger] entries[i]),
    ensures
        symbols_bytes(wire_symbols(entries)) == table_bytes(entries),
    decreases entries.len(),
{
    let all = wire_symbols(entries);
    if entries.len() > 0 {
        let front = entries.drop_last();
        assert forall|i: int| 0 <= i < front.len() implies texts_fit(#[trigger] front[i]) by {
            assert(front[i] == entries[i]);
        }
        lemma_table_as_symbols(front);
        lemma_symbols_last(all);
        assert(all.drop_last() =~= wire_symbols(front));
        assert(entries[entries.len() - 1] == entries.last());
        lemma_wire_symbol(entries.last());
    }
}

/// The serialized entries of a symbol table, one behind the other, are an upload: it gives the
/// node of each entry, in order, and no more than were announced.
pub proof fn law_table_uploads(entries: Seq<SymbolEntryView>, info: UploadInfo)
    requires
        forall|i: int| 0 <= i < entries.len() ==> texts_fit(#[trigger] entries[i]),
        table_bytes(entries).len() <= usize::MAX,
        info.symbol_length <= table_bytes(entries).len(),
    ensures
        uploaded(table_bytes(entries), info) == Ok::<Seq<SymbolNodeView>, ClientErrorView>(
            first_of(entries.map_values(|e: SymbolEntryView| node_of(e)), info.symbol_count as int),
        ),
{
    let all = wire_symbols(entries);
    lemma_table_as_symbols(entries);
    assert forall|i: int| 0 <= i < all.len() implies (#[trigger] all[i]).writable() by {
        lemma_wire_symbol(entries[i]);
    }
    law_upload_reads_back(all, Seq::empty(), info);
    assert(symbols_bytes(all) + Seq::<u8>::empty() =~= table_bytes(entries));
    assert(symbols_read(all) =~= entries.map_values(|e: SymbolEntryView| node_of(e)));
}

} // verus!
