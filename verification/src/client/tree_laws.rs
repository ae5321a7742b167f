//! What a tree of symbols gives back of the symbols that it was made of, and which symbols
//! definitions subscribe to.
use vstd::prelude::*;

use crate::client::browse::{
    law_names_lead_to_their_last_node, node_at, node_ref_views, node_views, uploaded, DecodedSymbol, SymbolNode,
    SymbolNodeView, SymbolTree, UploadInfo,
};
use crate::client::error::ClientErrorView;
use crate::config::CustomMetricDefView;
use crate::custom_metric_notifier::{
    desired_keys, key_of, law_subscriptions_are_those_asked_for, NotificationMetricKeyView,
};
use crate::protocol::RegistrationKeyView;
use crate::registry::selected;
use crate::text::{dec, lower, starts_with};
use crate::wire::{u16_at, u32_at};

verus! {

/// A tree has the nodes it was made of, in order and with all their particulars.
pub proof fn law_trees_keep_their_nodes(nodes: Vec<SymbolNode>, tree: SymbolTree, i: int)
    requires
        call_ensures(SymbolTree::from_nodes, (nodes,), tree),
    ensures
        tree.nodes@.len() == nodes@.len(),
        0 <= i < nodes@.len() ==> {
            let a = tree.nodes@[i];
            let b = nodes@[i];
            &&& a.name@ == b.name@
            &&& a.data_type_name@ == b.data_type_name@
            &&& a.comment@ == b.comment@
            &&& a.igroup == b.igroup
            &&& a.ioffset == b.ioffset
            &&& a.size == b.size
            &&& a.datatype == b.datatype
            &&& a.flags == b.flags
        },
        tree.well_formed(),
{
    assert(node_views(tree.nodes@).len() == node_views(nodes@).len());
    if 0 <= i < nodes@.len() {
        assert(node_views(tree.nodes@)[i] == tree.nodes@[i]@);
        assert(node_views(nodes@)[i] == nodes@[i]@);
    }
}

/// A symbol that was decoded elsewhere keeps its name, type, place, size and flags; it has no
/// comment.
pub proof fn law_decoded_symbols_are_kept(symbols: Vec<DecodedSymbol>, tree: SymbolTree, i: int)
    requires
        call_ensures(SymbolTree::from_ads_symbols, (symbols,), tree),
    ensures
        tree.nodes@.len() == symbols@.len(),
        0 <= i < symbols@.len() ==> {
            let n = tree.nodes@[i];
            let s = symbols@[i];
            &&& n.name@ == s.name@
            &&& n.data_type_name@ == s.typ@
            &&& n.comment@.len() == 0
            &&& n.igroup == s.ix_group
            &&& n.ioffset == s.ix_offset
            &&& n.size == s.size as int % 0x1_0000_0000
            &&& n.datatype == s.base_type
            &&& n.flags == s.flags
        },
        tree.well_formed(),
{
    let views = symbols@.map_values(|s: DecodedSymbol| s@);
    assert(node_views(tree.nodes@).len() == views.len());
    if 0 <= i < symbols@.len() {
        assert(node_views(tree.nodes@)[i] == tree.nodes@[i]@);
        assert(views[i] == symbols@[i]@);
    }
}

/// A name finds the last node that has it, letter for letter; a name that no node has finds
/// nothing.
pub proof fn law_names_find_their_node(tree: &SymbolTree, name: &str, found: Option<&SymbolNode>)
    requires
        tree.well_formed(),
        tree.nodes@.len() <= usize::MAX,
        call_ensures(SymbolTree::get, (tree, name), found),
    ensures
        match found {
            Some(n) => exists|at: int|
                0 <= at < tree.nodes@.len() && #[trigger] tree.nodes@[at] == *n && n.name@ == name@ && forall|j: int|
                    at < j < tree.nodes@.len() ==> (#[trigger] tree.nodes@[j]).name@ != name@,
            None => forall|j: int| 0 <= j < tree.nodes@.len() ==> (#[trigger] tree.nodes@[j]).name@ != name@,
        },
{
    let views = node_views(tree.nodes@);
    law_names_lead_to_their_last_node(views, name@);
    assert(forall|j: int| 0 <= j < views.len() ==> (#[trigger] views[j]) == tree.nodes@[j]@);
    if tree.index().dom().contains(name@) {
        let at = tree.index()[name@] as int;
        assert(views[at].name == name@);
        assert(tree.nodes@[at]@.name == name@);
        assert forall|j: int| at < j < tree.nodes@.len() implies (#[trigger] tree.nodes@[j]).name@ != name@ by {
            assert(views[j].name != name@);
        }
    } else {
        assert forall|j: int| 0 <= j < tree.nodes@.len() implies (#[trigger] tree.nodes@[j]).name@ != name@ by {
            assert(views[j].name == tree.nodes@[j].name@);
        }
    }
}

/// The search for a prefix gives nodes whose name begins with it, whatever the case of letters, and
/// leaves none of these out.
pub proof fn law_prefixes_find_their_nodes(tree: &SymbolTree, prefix: &str, found: Vec<&SymbolNode>, i: int)
    requires
        call_ensures(SymbolTree::iter_prefix, (tree, prefix), found),
    ensures
        0 <= i < found@.len() ==> starts_with(lower(found@[i].name@), lower(prefix@)) && exists|j: int|
            0 <= j < tree.nodes@.len() && (#[trigger] tree.nodes@[j])@ == found@[i]@,
        0 <= i < tree.nodes@.len() && starts_with(lower(tree.nodes@[i].name@), lower(prefix@)) ==> exists|j: int|
            0 <= j < found@.len() && (#[trigger] found@[j])@ == tree.nodes@[i]@,
{
    let keep = |n: SymbolNodeView| starts_with(lower(n.name), lower(prefix@));
    let all = node_views(tree.nodes@);
    let got = node_ref_views(found@);
    if 0 <= i < found@.len() {
        assert(got[i] == found@[i]@);
        all.lemma_filter_pred(keep, i);
        assert(all.filter(keep).contains(got[i]));
        all.lemma_filter_contains_rev(keep, got[i]);
        let j = choose|j: int| 0 <= j < all.len() && all[j] == got[i];
        assert(tree.nodes@[j]@ == all[j]);
    }
    if 0 <= i < tree.nodes@.len() && starts_with(lower(tree.nodes@[i].name@), lower(prefix@)) {
        assert(all[i] == tree.nodes@[i]@);
        all.lemma_filter_contains(keep, i);
        assert(all.filter(keep).contains(all[i]));
        let j = choose|j: int| 0 <= j < got.len() && got[j] == all[i];
        assert(found@[j]@ == got[j]);
    }
}

/// A definition subscribes to its symbol on its PLC, at its port; at port 851 where it names none.
/// Only definitions whose values come by notification subscribe to anything.
pub proof fn law_definitions_subscribe_to_their_symbol(defs: Seq<CustomMetricDefView>, i: int)
    requires
        0 <= i < defs.len(),
    ensures
        ({
            let k = key_of(defs[i]);
            &&& k.symbol == defs[i].symbol
            &&& defs[i].ams_net_id matches Some(id) ==> k.ams_net_id == id
            &&& defs[i].ams_net_id is None ==> k.ams_net_id.len() == 0
            &&& defs[i].ams_port matches Some(port) ==> k.ams_port == port
            &&& defs[i].ams_port is None ==> k.ams_port == 851
            &&& defs[i].source is Notification ==> desired_keys(defs).contains(k)
        }),
        (forall|j: int| 0 <= j < defs.len() ==> !((#[trigger] defs[j]).source is Notification)) ==> desired_keys(defs)
            == Set::<NotificationMetricKeyView>::empty(),
{
    law_subscriptions_are_those_asked_for(defs, key_of(defs[i]));
    if forall|j: int| 0 <= j < defs.len() ==> !((#[trigger] defs[j]).source is Notification) {
        assert forall|k: NotificationMetricKeyView| !desired_keys(defs).contains(k) by {
            law_subscriptions_are_those_asked_for(defs, k);
        }
        assert(desired_keys(defs) =~= Set::<NotificationMetricKeyView>::empty());
    }
}

/// A task is selected exactly if its Net ID is the one asked for, and its port and its index where
/// these are given.
pub proof fn law_tasks_are_selected_by_their_parts(
    key: RegistrationKeyView,
    net_id: Seq<char>,
    port: u16,
    index: u8,
)
    ensures
        selected(key, net_id, None, None) <==> key.ams_net_id == net_id,
        selected(key, net_id, Some(port), None) <==> key.ams_net_id == net_id && key.ams_source_port == port,
        selected(key, net_id, None, Some(index)) <==> key.ams_net_id == net_id && key.task_index == index,
        selected(key, net_id, Some(port), Some(index)) <==> key.ams_net_id == net_id && key.ams_source_port == port
            && key.task_index == index,
{
}

/// An upload that holds fewer bytes than were announced is refused, and so is one with an entry that
/// reaches beyond it, or whose texts reach beyond the entry.
pub proof fn law_cut_uploads_are_refused(s: Seq<u8>, info: UploadInfo, p: int)
    ensures
        s.len() < info.symbol_length ==> uploaded(s, info) == Err::<Seq<SymbolNodeView>, ClientErrorView>(
            ClientErrorView::Decode(
                "symbol upload: info says "@ + dec(info.symbol_length as nat) + " bytes, buffer has "@ + dec(s.len()),
            ),
        ),
        0 <= p && s.len() <= usize::MAX && p + u32_at(s, p) > s.len() ==> node_at(s, p) is Err,
        0 <= p && 32 + u16_at(s, p + 24) + u16_at(s, p + 26) + u16_at(s, p + 28) > u32_at(s, p) ==> node_at(s, p) is Err,
        info.symbol_length <= s.len() && info.symbol_count > 0 && s.len() >= 30 && node_at(s, 0) is Err ==> uploaded(
            s,
            info,
        ) is Err,
        info.symbol_length <= s.len() && (info.symbol_count == 0 || s.len() < 30) ==> uploaded(s, info) == Ok::<
            Seq<SymbolNodeView>,
            ClientErrorView,
        >(Seq::empty()),
{
}

} // verus!
