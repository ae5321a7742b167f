//! The symbols of a PLC, from the bytes of an upload.
use vstd::hash_map::StringHashMap;
use vstd::prelude::*;
use vstd::utf8::{decode_utf8, valid_utf8};

use crate::client::error::{told, ClientError, ClientErrorView};
use crate::dispatcher::low32;
use crate::text::{
    chars_of, dec, has_prefix, lower, lower_chars, push_dec, starts_with, text_from_utf8, utf8_error_text,
};
use crate::wire::{get_u16, get_u32, u16_at, u32_at};

verus! {

pub const ADSIGRP_SYM_UPLOADINFO2: u32 = 0xF00F;

pub const ADSIGRP_SYM_UPLOAD: u32 = 0xF00B;

pub const ADSIGRP_SYM_DT_UPLOAD: u32 = 0xF00E;

/// The counts and sizes that a PLC announces for an upload.
#[derive(Debug, Clone, Copy, PartialEq, Eq, Structural)]
pub struct UploadInfo {
    pub symbol_count: u32,
    pub symbol_length: u32,
    pub datatype_count: u32,
    pub datatype_length: u32,
    pub extra_count: u32,
    pub extra_length: u32,
}

impl View for UploadInfo {
    type V = UploadInfo;

    open spec fn view(&self) -> UploadInfo {
        *self
    }
}

impl UploadInfo {
    pub const BYTE_LEN: usize = 24;
}

/// The bytes of an entry before its texts.
pub const ENTRY_HEADER_LEN: usize = 30;

/// A symbol of a PLC.
#[derive(Debug, PartialEq, Eq)]
pub struct SymbolNode {
    pub name: String,
    pub data_type_name: String,
    pub comment: String,
    pub igroup: u32,
    pub ioffset: u32,
    pub size: u32,
    pub datatype: u32,
    pub flags: u32,
}

pub struct SymbolNodeView {
    pub name: Seq<char>,
    pub data_type_name: Seq<char>,
    pub comment: Seq<char>,
    pub igroup: u32,
    pub ioffset: u32,
    pub size: u32,
    pub datatype: u32,
    pub flags: u32,
}

impl View for SymbolNode {
    type V = SymbolNodeView;

    open spec fn view(&self) -> SymbolNodeView {
        SymbolNodeView {
            name: self.name@,
            data_type_name: self.data_type_name@,
            comment: self.comment@,
            igroup: self.igroup,
            ioffset: self.ioffset,
            size: self.size,
            datatype: self.datatype,
            flags: self.flags,
        }
    }
}

impl Clone for SymbolNode {
    fn clone(&self) -> (r: Self)
        ensures
            r@ == self@,
    {
        SymbolNode {
            name: self.name.clone(),
            data_type_name: self.data_type_name.clone(),
            comment: self.comment.clone(),
            igroup: self.igroup,
            ioffset: self.ioffset,
            size: self.size,
            datatype: self.datatype,
            flags: self.flags,
        }
    }
}

pub open spec fn node_views(nodes: Seq<SymbolNode>) -> Seq<SymbolNodeView> {
    nodes.map_values(|n: SymbolNode| n@)
}

pub open spec fn node_ref_views(nodes: Seq<&SymbolNode>) -> Seq<SymbolNodeView> {
    nodes.map_values(|n: &SymbolNode| n@)
}

/// A symbol as an ADS library that decodes the upload itself gives it.
#[derive(Debug, PartialEq, Eq)]
pub struct DecodedSymbol {
    pub name: String,
    pub ix_group: u32,
    pub ix_offset: u32,
    pub typ: String,
    pub size: usize,
    pub base_type: u32,
    pub flags: u32,
}

impl View for DecodedSymbol {
    type V = SymbolNodeView;

    /// The node that stands for it: without a comment, and with its size modulo 2^32.
    open spec fn view(&self) -> SymbolNodeView {
        SymbolNodeView {
            name: self.name@,
            data_type_name: self.typ@,
            comment: Seq::empty(),
            igroup: self.ix_group,
            ioffset: self.ix_offset,
            size: low32(self.size as int),
            datatype: self.base_type,
            flags: self.flags,
        }
    }
}

/// The place of the last node of each name.
pub open spec fn last_places(nodes: Seq<SymbolNodeView>) -> Map<Seq<char>, usize>
    decreases nodes.len(),
{
    if nodes.len() == 0 {
        Map::empty()
    } else {
        last_places(nodes.drop_last()).insert(nodes.last().name, (nodes.len() - 1) as usize)
    }
}

/// The symbols of a PLC, in the order of the upload, and where each name is.
pub struct SymbolTree {
    pub nodes: Vec<SymbolNode>,
    pub index_by_name: StringHashMap<usize>,
}

impl SymbolTree {
    /// Where each name is.
    pub open spec fn index(&self) -> Map<Seq<char>, usize> {
        self.index_by_name@
    }

    /// The index points to the last node of each name.
    pub open spec fn well_formed(&self) -> bool {
        self.index() == last_places(node_views(self.nodes@))
    }

    /// A tree without symbols.
    pub fn empty() -> (r: Self)
        ensures
            r.nodes@.len() == 0,
            r.well_formed(),
    {
        let r = SymbolTree { nodes: Vec::new(), index_by_name: StringHashMap::new() };
        assert(r.index() =~= last_places(node_views(r.nodes@)));
        r
    }

    fn push(&mut self, node: SymbolNode)
        requires
            old(self).well_formed(),
        ensures
            final(self).well_formed(),
            node_views(final(self).nodes@) == node_views(old(self).nodes@).push(node@),
    {
        let i: usize = self.nodes.len();
        self.index_by_name.insert(node.name.clone(), i);
        self.nodes.push(node);
        proof {
            let after = node_views(self.nodes@);
            assert(after =~= node_views(old(self).nodes@).push(node@));
            assert(after.drop_last() =~= node_views(old(self).nodes@));
        }
    }

    pub fn len(&self) -> (r: usize)
        ensures
            r == self.nodes@.len(),
    {
        self.nodes.len()
    }

    pub fn is_empty(&self) -> (r: bool)
        ensures
            r == (self.nodes@.len() == 0),
    {
        self.nodes.len() == 0
    }

    /// The symbol of this name. The case of letters matters.
    pub fn get(&self, name: &str) -> (r: Option<&SymbolNode>)
        ensures
            match r {
                Some(n) => self.index().dom().contains(name@) && self.index()[name@] < self.nodes@.len() && *n
                    == self.nodes@[self.index()[name@] as int],
                None => !(self.index().dom().contains(name@) && self.index()[name@] < self.nodes@.len()),
            },
    {
        match self.index_by_name.get(name) {
            None => None,
            Some(i) => {
                if *i < self.nodes.len() {
                    Some(&self.nodes[*i])
                } else {
                    None
                }
            },
        }
    }

    /// The tree of these nodes.
    pub fn from_nodes(nodes: Vec<SymbolNode>) -> (r: Self)
        ensures
            r.well_formed(),
            node_views(r.nodes@) == node_views(nodes@),
    {
        let ghost all = node_views(nodes@);
        let mut tree = SymbolTree::empty();
        assert(node_views(tree.nodes@) =~= all.take(0));
        for node in it: nodes.into_iter()
            invariant
                it.seq() == nodes@,
                tree.well_formed(),
                all == node_views(nodes@),
                node_views(tree.nodes@) == all.take(it.index() as int),
        {
            let ghost n = it.index() as int;
            assert(all[n] == node@);
            tree.push(node);
            assert(all.take(n + 1) =~= all.take(n).push(all[n]));
        }
        assert(all.take(all.len() as int) =~= all);
        tree
    }

    /// The tree of symbols that were decoded elsewhere.
    pub fn from_ads_symbols(symbols: Vec<DecodedSymbol>) -> (r: Self)
        ensures
            r.well_formed(),
            node_views(r.nodes@) == symbols@.map_values(|s: DecodedSymbol| s@),
    {
        let ghost all = symbols@.map_values(|s: DecodedSymbol| s@);
        let mut tree = SymbolTree::empty();
        assert(node_views(tree.nodes@) =~= all.take(0));
        for s in it: symbols.into_iter()
            invariant
                it.seq() == symbols@,
                tree.well_formed(),
                all == symbols@.map_values(|s: DecodedSymbol| s@),
                node_views(tree.nodes@) == all.take(it.index() as int),
        {
            let ghost view = s@;
            let ghost n = it.index() as int;
            assert(all[n] == view);
            tree.push(
                SymbolNode {
                    name: s.name,
                    data_type_name: s.typ,
                    comment: String::new(),
                    igroup: s.ix_group,
                    ioffset: s.ix_offset,
                    size: (s.size as u64 % 0x1_0000_0000) as u32,
                    datatype: s.base_type,
                    flags: s.flags,
                },
            );
            assert(all.take(n + 1) =~= all.take(n).push(all[n]));
        }
        assert(all.take(all.len() as int) =~= all);
        tree
    }

    /// The symbols whose name begins with `prefix`, whatever the case of letters.
    pub fn iter_prefix(&self, prefix: &str) -> (r: Vec<&SymbolNode>)
        ensures
            node_ref_views(r@) == node_views(self.nodes@).filter(
                |n: SymbolNodeView| starts_with(lower(n.name), lower(prefix@)),
            ),
    {
        let ghost keep = |n: SymbolNodeView| starts_with(lower(n.name), lower(prefix@));
        let ghost all = node_views(self.nodes@);
        let needle = lower_chars(&chars_of(prefix));
        let mut r: Vec<&SymbolNode> = Vec::new();
        let mut i: usize = 0;
        proof {
            reveal(Seq::filter);
            assert(all.take(0).filter(keep) =~= node_ref_views(r@));
        }
        while i < self.nodes.len()
            invariant
                i <= self.nodes@.len(),
                all == node_views(self.nodes@),
                needle@ == lower(prefix@),
                keep == |n: SymbolNodeView| starts_with(lower(n.name), lower(prefix@)),
                node_ref_views(r@) == all.take(i as int).filter(keep),
            decreases self.nodes@.len() - i,
        {
            let node = &self.nodes[i];
            let name = lower_chars(&chars_of(&node.name));
            let ghost before = node_ref_views(r@);
            proof {
                assert(all.take(i + 1).drop_last() =~= all.take(i as int));
                assert(all.take(i + 1).last() == node@);
                reveal(Seq::filter);
            }
            if has_prefix(&name, &needle) {
                r.push(node);
                assert(node_ref_views(r@) =~= before.push(node@));
            }
            i = i + 1;
        }
        assert(all.take(i as int) =~= all);
        r
    }
}

impl Default for SymbolTree {
    fn default() -> (r: Self)
        ensures
            r.nodes@.len() == 0,
            r.well_formed(),
    {
        SymbolTree::empty()
    }
}

/// A name is indexed exactly if a node has it, and leads to the last such node.
pub proof fn law_names_lead_to_their_last_node(nodes: Seq<SymbolNodeView>, name: Seq<char>)
    requires
        nodes.len() <= usize::MAX,
    ensures
        last_places(nodes).dom().contains(name) <==> exists|i: int|
            0 <= i < nodes.len() && (#[trigger] nodes[i]).name == name,
        last_places(nodes).dom().contains(name) ==> {
            let at = last_places(nodes)[name] as int;
            &&& 0 <= at < nodes.len()
            &&& nodes[at].name == name
            &&& forall|j: int| at < j < nodes.len() ==> (#[trigger] nodes[j]).name != name
        },
    decreases nodes.len(),
{
    if nodes.len() > 0 {
        let front = nodes.drop_last();
        law_names_lead_to_their_last_node(front, name);
        assert(nodes[nodes.len() - 1] == nodes.last());
        if nodes.last().name != name {
            if last_places(front).dom().contains(name) {
                let at = last_places(front)[name] as int;
                assert(front[at] == nodes[at]);
                assert forall|j: int| at < j < nodes.len() implies (#[trigger] nodes[j]).name != name by {
                    if j < front.len() {
                        assert(front[j] == nodes[j]);
                    }
                }
            } else {
                assert forall|i: int| 0 <= i < nodes.len() implies (#[trigger] nodes[i]).name != name by {
                    if i < front.len() {
                        assert(front[i] == nodes[i]);
                    }
                }
            }
        }
    }
}

/// The announced counts and sizes in a reply.
pub open spec fn info_of(s: Seq<u8>) -> Result<UploadInfo, ClientErrorView> {
    if s.len() < 24 {
        Err(ClientErrorView::Decode("upload_info: need 24 bytes, got "@ + dec(s.len())))
    } else {
        Ok(
            UploadInfo {
                symbol_count: u32_at(s, 0),
                symbol_length: u32_at(s, 4),
                datatype_count: u32_at(s, 8),
                datatype_length: u32_at(s, 12),
                extra_count: u32_at(s, 16),
                extra_length: u32_at(s, 20),
            },
        )
    }
}

/// Reads the announced counts and sizes.
pub fn parse_upload_info(bytes: &[u8]) -> (r: Result<UploadInfo, ClientError>)
    ensures
        told(r) == info_of(bytes@),
{
    if bytes.len() < UploadInfo::BYTE_LEN {
        return Err(
            ClientError::Decode(crate::text::numbered("upload_info: need 24 bytes, got ", bytes.len() as u64)),
        );
    }
    Ok(
        UploadInfo {
            symbol_count: get_u32(bytes, 0),
            symbol_length: get_u32(bytes, 4),
            datatype_count: get_u32(bytes, 8),
            datatype_length: get_u32(bytes, 12),
            extra_count: get_u32(bytes, 16),
            extra_length: get_u32(bytes, 20),
        },
    )
}

/// The text of some bytes.
pub open spec fn symbol_text(s: Seq<u8>) -> Result<Seq<char>, ClientErrorView> {
    if valid_utf8(s) {
        Ok(decode_utf8(s))
    } else {
        Err(ClientErrorView::Decode("non-utf8 in symbol string: "@ + utf8_error_text(s)))
    }
}

/// Where the entry at `pos` ends.
pub open spec fn entry_end(s: Seq<u8>, pos: int) -> int {
    pos + u32_at(s, pos)
}

/// Where the texts of the entry at `pos` end. A zero stands behind the name and behind the type.
pub open spec fn texts_end(s: Seq<u8>, pos: int) -> int {
    pos + 32 + u16_at(s, pos + 24) + u16_at(s, pos + 26) + u16_at(s, pos + 28)
}

/// The entry whose header starts at `pos`.
pub open spec fn node_at(s: Seq<u8>, pos: int) -> Result<SymbolNodeView, ClientErrorView> {
    let a = pos + 30;
    let b = a + u16_at(s, pos + 24);
    let c = b + 1 + u16_at(s, pos + 26);
    if entry_end(s, pos) > usize::MAX {
        Err(ClientErrorView::Decode("entry_length overflow"@))
    } else if entry_end(s, pos) > s.len() {
        Err(
            ClientErrorView::Decode(
                "entry at "@ + dec(pos as nat) + " overruns buffer (ends at "@ + dec(entry_end(s, pos) as nat)
                    + ", limit "@ + dec(s.len()) + ")"@,
            ),
        )
    } else if texts_end(s, pos) > entry_end(s, pos) {
        Err(ClientErrorView::Decode("strings overrun entry at cursor "@ + dec(pos as nat)))
    } else {
        match symbol_text(s.subrange(a, b)) {
            Err(e) => Err(e),
            Ok(name) => match symbol_text(s.subrange(b + 1, c)) {
                Err(e) => Err(e),
                Ok(data_type_name) => match symbol_text(s.subrange(c + 1, texts_end(s, pos))) {
                    Err(e) => Err(e),
                    Ok(comment) => Ok(
                        SymbolNodeView {
                            name,
                            data_type_name,
                            comment,
                            igroup: u32_at(s, pos + 4),
                            ioffset: u32_at(s, pos + 8),
                            size: u32_at(s, pos + 12),
                            datatype: u32_at(s, pos + 16),
                            flags: u32_at(s, pos + 20),
                        },
                    ),
                },
            },
        }
    }
}

/// The entries from `pos` on, after those already read: as many as there is room for a header,
/// and no more than `count` in all.
pub open spec fn nodes_from(s: Seq<u8>, pos: int, count: int, found: Seq<SymbolNodeView>) -> Result<
    Seq<SymbolNodeView>,
    ClientErrorView,
>
    decreases s.len() - pos,
{
    if pos + 30 > s.len() || found.len() >= count {
        Ok(found)
    } else {
        match node_at(s, pos) {
            Err(e) => Err(e),
            Ok(node) => nodes_from(s, entry_end(s, pos), count, found.push(node)),
        }
    }
}

/// The symbols of an upload.
pub open spec fn uploaded(s: Seq<u8>, info: UploadInfo) -> Result<Seq<SymbolNodeView>, ClientErrorView> {
    if s.len() < info.symbol_length {
        Err(
            ClientErrorView::Decode(
                "symbol upload: info says "@ + dec(info.symbol_length as nat) + " bytes, buffer has "@ + dec(
                    s.len(),
                ),
            ),
        )
    } else {
        nodes_from(s, 0, info.symbol_count as int, Seq::empty())
    }
}

fn read_text(bytes: &[u8], from: usize, to: usize) -> (r: Result<String, ClientError>)
    requires
        from <= to <= bytes@.len(),
    ensures
        told(r) == symbol_text(bytes@.subrange(from as int, to as int)),
{
    match text_from_utf8(vstd::slice::slice_subrange(bytes, from, to)) {
        Ok(text) => Ok(text),
        Err(e) => Err(ClientError::Decode(String::from_str("non-utf8 in symbol string: ").concat(&e))),
    }
}

fn overrun_message(cursor: usize, end: usize, limit: usize) -> (r: String)
    ensures
        r@ == "entry at "@ + dec(cursor as nat) + " overruns buffer (ends at "@ + dec(end as nat) + ", limit "@ + dec(
            limit as nat,
        ) + ")"@,
{
    let mut m = crate::text::with_number("entry at ", cursor as u64, " overruns buffer (ends at ");
    push_dec(&mut m, end as u64);
    m.append(", limit ");
    push_dec(&mut m, limit as u64);
    m.append(")");
    m
}

/// Reads the entry at `cursor`; gives it and where it ends.
fn parse_node(bytes: &[u8], cursor: usize) -> (r: Result<(SymbolNode, usize), ClientError>)
    requires
        cursor + 30 <= bytes@.len(),
    ensures
        match r {
            Ok((n, end)) => node_at(bytes@, cursor as int) == Ok::<SymbolNodeView, ClientErrorView>(n@) && end
                == entry_end(bytes@, cursor as int) && cursor + 32 <= end <= bytes@.len(),
            Err(e) => node_at(bytes@, cursor as int) == Err::<SymbolNodeView, ClientErrorView>(e@),
        },
{
    let limit: usize = bytes.len();
    let entry_length: u32 = get_u32(bytes, cursor);
    let end: usize = match cursor.checked_add(entry_length as usize) {
        Some(end) => end,
        None => {
            return Err(ClientError::Decode(String::from_str("entry_length overflow")));
        },
    };
    if end > limit {
        return Err(ClientError::Decode(overrun_message(cursor, end, limit)));
    }
    let name_length: u16 = get_u16(bytes, cursor + 24);
    let type_length: u16 = get_u16(bytes, cursor + 26);
    let comment_length: u16 = get_u16(bytes, cursor + 28);
    let needed: u32 = 32 + name_length as u32 + type_length as u32 + comment_length as u32;
    if needed > entry_length {
        return Err(
            ClientError::Decode(crate::text::numbered("strings overrun entry at cursor ", cursor as u64)),
        );
    }
    let strings_start: usize = cursor + ENTRY_HEADER_LEN;
    let name_end: usize = strings_start + name_length as usize;
    let type_end: usize = name_end + 1 + type_length as usize;
    let comment_end: usize = type_end + 1 + comment_length as usize;
    let name = match read_text(bytes, strings_start, name_end) {
        Ok(t) => t,
        Err(e) => {
            return Err(e);
        },
    };
    let data_type_name = match read_text(bytes, name_end + 1, type_end) {
        Ok(t) => t,
        Err(e) => {
            return Err(e);
        },
    };
    let comment = match read_text(bytes, type_end + 1, comment_end) {
        Ok(t) => t,
        Err(e) => {
            return Err(e);
        },
    };
    Ok(
        (
            SymbolNode {
                name,
                data_type_name,
                comment,
                igroup: get_u32(bytes, cursor + 4),
                ioffset: get_u32(bytes, cursor + 8),
                size: get_u32(bytes, cursor + 12),
                datatype: get_u32(bytes, cursor + 16),
                flags: get_u32(bytes, cursor + 20),
            },
            end,
        ),
    )
}

/// Reads the symbols of an upload.
pub fn parse_upload(bytes: &[u8], info: &UploadInfo) -> (r: Result<SymbolTree, ClientError>)
    ensures
        match r {
            Ok(t) => t.well_formed() && uploaded(bytes@, *info) == Ok::<Seq<SymbolNodeView>, ClientErrorView>(
                node_views(t.nodes@),
            ),
            Err(e) => uploaded(bytes@, *info) == Err::<Seq<SymbolNodeView>, ClientErrorView>(e@),
        },
{
    if (bytes.len() as u64) < info.symbol_length as u64 {
        let mut m = crate::text::with_number(
            "symbol upload: info says ",
            info.symbol_length as u64,
            " bytes, buffer has ",
        );
        push_dec(&mut m, bytes.len() as u64);
        return Err(ClientError::Decode(m));
    }
    let ghost s = bytes@;
    let ghost all = uploaded(s, *info);
    let mut tree = SymbolTree::empty();
    let mut cursor: usize = 0;
    assert(node_views(tree.nodes@) =~= Seq::empty());
    while bytes.len() - cursor >= ENTRY_HEADER_LEN && (tree.nodes.len() as u64) < info.symbol_count as u64
        invariant
            s == bytes@,
            cursor <= s.len(),
            tree.well_formed(),
            all == uploaded(s, *info),
            nodes_from(s, cursor as int, info.symbol_count as int, node_views(tree.nodes@)) == all,
        decreases s.len() - cursor,
    {
        match parse_node(bytes, cursor) {
            Err(e) => {
                return Err(e);
            },
            Ok((node, end)) => {
                tree.push(node);
                cursor = end;
            },
        }
    }
    Ok(tree)
}

/// No more symbols come out than were announced, and no more than the bytes have room for.
pub proof fn law_upload_is_bounded(s: Seq<u8>, info: UploadInfo)
    ensures
        uploaded(s, info) matches Ok(v) ==> v.len() <= info.symbol_count && 32 * v.len() <= s.len(),
{
    if s.len() >= info.symbol_length {
        lemma_nodes_are_bounded(s, 0, info.symbol_count as int, Seq::empty());
    }
}

proof fn lemma_nodes_are_bounded(s: Seq<u8>, pos: int, count: int, found: Seq<SymbolNodeView>)
    requires
        0 <= pos <= s.len(),
        found.len() <= count,
        32 * found.len() <= pos,
    ensures
        nodes_from(s, pos, count, found) matches Ok(v) ==> v.len() <= count && 32 * v.len() <= s.len(),
    decreases s.len() - pos,
{
    if pos + 30 <= s.len() && found.len() < count {
        match node_at(s, pos) {
            Ok(node) => {
                lemma_nodes_are_bounded(s, entry_end(s, pos), count, found.push(node));
            },
            Err(_) => {},
        }
    }
}

/// An upload that cannot be read is a decoding error.
pub proof fn law_malformed_uploads_are_decode_errors(s: Seq<u8>, info: UploadInfo)
    ensures
        uploaded(s, info) matches Err(e) ==> e is Decode,
{
    if s.len() >= info.symbol_length {
        lemma_nodes_fail_to_decode(s, 0, info.symbol_count as int, Seq::empty());
    }
}

proof fn lemma_nodes_fail_to_decode(s: Seq<u8>, pos: int, count: int, found: Seq<SymbolNodeView>)
    ensures
        nodes_from(s, pos, count, found) matches Err(e) ==> e is Decode,
    decreases s.len() - pos,
{
    if pos + 30 <= s.len() && found.len() < count {
        match node_at(s, pos) {
            Ok(node) => {
                lemma_nodes_fail_to_decode(s, entry_end(s, pos), count, found.push(node));
            },
            Err(_) => {},
        }
    }
}

} // verus!
