//! Which symbols are to be subscribed to, and which are no longer.
use vstd::prelude::*;

use crate::config::{def_views, CustomMetricDef, CustomMetricDefView, CustomMetricSource};
use crate::keymap::{
    lemma_push_contains, lemma_push_no_duplicates, lemma_take_push, lists, KeySet, MapKey,
};

verus! {

/// The port that is meant where a definition names none.
pub const DEFAULT_PLC_PORT: u16 = 851;

/// A symbol that is subscribed to.
#[derive(Debug, PartialEq, Eq, Hash)]
pub struct NotificationMetricKey {
    pub ams_net_id: String,
    pub ams_port: u16,
    pub symbol: String,
}

pub struct NotificationMetricKeyView {
    pub ams_net_id: Seq<char>,
    pub ams_port: u16,
    pub symbol: Seq<char>,
}

impl View for NotificationMetricKey {
    type V = NotificationMetricKeyView;

    open spec fn view(&self) -> NotificationMetricKeyView {
        NotificationMetricKeyView { ams_net_id: self.ams_net_id@, ams_port: self.ams_port, symbol: self.symbol@ }
    }
}

impl MapKey for NotificationMetricKey {
    fn same(&self, other: &Self) -> (b: bool) {
        self.ams_port == other.ams_port && self.ams_net_id == other.ams_net_id && self.symbol == other.symbol
    }
}

impl Clone for NotificationMetricKey {
    fn clone(&self) -> (r: Self)
        ensures
            r@ == self@,
    {
        NotificationMetricKey {
            ams_net_id: self.ams_net_id.clone(),
            ams_port: self.ams_port,
            symbol: self.symbol.clone(),
        }
    }
}

/// What a definition subscribes to.
pub open spec fn key_of(d: CustomMetricDefView) -> NotificationMetricKeyView {
    NotificationMetricKeyView {
        ams_net_id: match d.ams_net_id {
            Some(id) => id,
            None => Seq::empty(),
        },
        ams_port: match d.ams_port {
            Some(port) => port,
            None => DEFAULT_PLC_PORT,
        },
        symbol: d.symbol,
    }
}

/// What the definitions subscribe to: the keys of those whose values come by notification.
pub open spec fn desired_keys(defs: Seq<CustomMetricDefView>) -> Set<NotificationMetricKeyView>
    decreases defs.len(),
{
    if defs.len() == 0 {
        Set::empty()
    } else if defs.last().source == CustomMetricSource::Notification {
        desired_keys(defs.drop_last()).insert(key_of(defs.last()))
    } else {
        desired_keys(defs.drop_last())
    }
}

pub open spec fn key_views(keys: Seq<NotificationMetricKey>) -> Seq<NotificationMetricKeyView> {
    keys.map_values(|k: NotificationMetricKey| k@)
}

/// The subscriptions of one target.
#[derive(Debug)]
pub struct CustomMetricNotifier {
    subscribed: KeySet<NotificationMetricKey>,
}

impl View for CustomMetricNotifier {
    type V = Set<NotificationMetricKeyView>;

    closed spec fn view(&self) -> Set<NotificationMetricKeyView> {
        self.subscribed@
    }
}

/// The keys of `from` that are not in `other`.
fn missing(from: &KeySet<NotificationMetricKey>, other: &KeySet<NotificationMetricKey>) -> (r: Vec<
    NotificationMetricKey,
>)
    ensures
        lists(key_views(r@), from@.difference(other@)),
{
    let n: usize = from.len();
    let ghost items = from.items();
    let mut r: Vec<NotificationMetricKey> = Vec::new();
    let mut i: usize = 0;
    assert(key_views(r@) =~= Seq::empty());
    while i < n
        invariant
            i <= n,
            n == items.len(),
            items == from.items(),
            items.no_duplicates(),
            key_views(r@).no_duplicates(),
            forall|k: NotificationMetricKeyView| #[trigger]
                key_views(r@).contains(k) == (items.take(i as int).contains(k) && !other@.contains(k)),
        decreases n - i,
    {
        let key = from.at(i);
        let ghost k = key@;
        let ghost before = key_views(r@);
        proof {
            lemma_take_push(items, i as int);
        }
        if !other.contains(key) {
            r.push(key.clone());
            assert(key_views(r@) =~= before.push(k));
            proof {
                lemma_push_contains(before, k);
                if before.contains(k) {
                    assert(items.take(i as int).contains(k));
                }
                lemma_push_no_duplicates(before, k);
            }
        }
        i = i + 1;
    }
    proof {
        assert(items.take(n as int) =~= items);
        assert forall|k: NotificationMetricKeyView| #[trigger]
            key_views(r@).contains(k) == from@.difference(other@).contains(k) by {
            assert(from@.contains(k) == items.contains(k));
        }
    }
    r
}

impl CustomMetricNotifier {
    pub fn new() -> (r: Self)
        ensures
            r@ == Set::<NotificationMetricKeyView>::empty(),
    {
        CustomMetricNotifier { subscribed: KeySet::new() }
    }

    /// Takes over the definitions. Gives the keys to subscribe to and those to unsubscribe from.
    pub fn update_subscriptions(&mut self, metrics: &[CustomMetricDef]) -> (r: (
        Vec<NotificationMetricKey>,
        Vec<NotificationMetricKey>,
    ))
        ensures
            final(self)@ == desired_keys(def_views(metrics@)),
            lists(key_views(r.0@), final(self)@.difference(old(self)@)),
            lists(key_views(r.1@), old(self)@.difference(final(self)@)),
    {
        let ghost views = def_views(metrics@);
        let mut desired: KeySet<NotificationMetricKey> = KeySet::new();
        let mut i: usize = 0;
        assert(desired_keys(views.take(0)) =~= Set::empty());
        while i < metrics.len()
            invariant
                i <= metrics@.len(),
                views == def_views(metrics@),
                desired@ == desired_keys(views.take(i as int)),
            decreases metrics@.len() - i,
        {
            let def = &metrics[i];
            assert(views.take(i + 1).drop_last() =~= views.take(i as int));
            assert(views.take(i + 1).last() == def@);
            if def.source == CustomMetricSource::Notification {
                let ams_net_id = match &def.ams_net_id {
                    Some(id) => id.clone(),
                    None => String::new(),
                };
                let ams_port: u16 = match def.ams_port {
                    Some(port) => port,
                    None => DEFAULT_PLC_PORT,
                };
                let key = NotificationMetricKey { ams_net_id, ams_port, symbol: def.symbol.clone() };
                assert(key@ == key_of(def@));
                desired.insert(key);
            }
            i = i + 1;
        }
        assert(views.take(i as int) =~= views);
        let to_add = missing(&desired, &self.subscribed);
        let to_remove = missing(&self.subscribed, &desired);
        self.subscribed = desired;
        (to_add, to_remove)
    }
}

impl Default for CustomMetricNotifier {
    fn default() -> (r: Self)
        ensures
            r@ == Set::<NotificationMetricKeyView>::empty(),
    {
        CustomMetricNotifier::new()
    }
}

/// Taking over the same definitions again changes nothing: there is nothing to subscribe to and
/// nothing to unsubscribe from.
pub proof fn law_same_definitions_change_nothing(defs: Seq<CustomMetricDefView>)
    ensures
        desired_keys(defs).difference(desired_keys(defs)) == Set::<NotificationMetricKeyView>::empty(),
{
    assert(desired_keys(defs).difference(desired_keys(defs)) =~= Set::<NotificationMetricKeyView>::empty());
}

/// A key is subscribed to exactly if a definition with notifications asks for it.
pub proof fn law_subscriptions_are_those_asked_for(defs: Seq<CustomMetricDefView>, k: NotificationMetricKeyView)
    ensures
        desired_keys(defs).contains(k) <==> exists|i: int|
            0 <= i < defs.len() && (#[trigger] defs[i]).source == CustomMetricSource::Notification && key_of(
                defs[i],
            ) == k,
    decreases defs.len(),
{
    if defs.len() > 0 {
        let front = defs.drop_last();
        law_subscriptions_are_those_asked_for(front, k);
        if desired_keys(front).contains(k) {
            let i = choose|i: int|
                0 <= i < front.len() && (#[trigger] front[i]).source == CustomMetricSource::Notification && key_of(
                    front[i],
                ) == k;
            assert(defs[i] == front[i]);
        }
        if exists|i: int|
            0 <= i < defs.len() && (#[trigger] defs[i]).source == CustomMetricSource::Notification && key_of(
                defs[i],
            ) == k {
            let i = choose|i: int|
                0 <= i < defs.len() && (#[trigger] defs[i]).source == CustomMetricSource::Notification && key_of(
                    defs[i],
                ) == k;
            if i < front.len() {
                assert(front[i] == defs[i]);
            }
        }
        assert(defs.last() == defs[defs.len() - 1]);
    }
}

} // verus!
