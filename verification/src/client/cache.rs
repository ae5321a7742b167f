//! The symbol trees of the PLCs that were browsed.
use std::sync::Arc;
use vstd::prelude::*;

use crate::ams::{dotted, AmsNetId};
use crate::client::browse::SymbolTree;
use crate::keymap::{KeyMap, MapKey};
use crate::time::{utc_now, Timestamp};

verus! {

/// A PLC, by the six bytes of its AMS Net ID.
#[derive(Debug, Clone, Copy, PartialEq, Eq, Hash)]
pub struct TargetKey(pub [u8; 6]);

impl View for TargetKey {
    type V = Seq<u8>;

    open spec fn view(&self) -> Seq<u8> {
        self.0@
    }
}

impl MapKey for TargetKey {
    fn same(&self, other: &Self) -> (b: bool) {
        let mut i: usize = 0;
        while i < 6
            invariant
                i <= 6,
                forall|j: int| 0 <= j < i ==> self.0@[j] == other.0@[j],
            decreases 6 - i,
        {
            if self.0[i] != other.0[i] {
                return false;
            }
            i = i + 1;
        }
        assert(self@ =~= other@);
        true
    }
}

impl vstd::std_specs::convert::FromSpecImpl<[u8; 6]> for TargetKey {
    open spec fn obeys_from_spec() -> bool {
        true
    }

    open spec fn from_spec(raw: [u8; 6]) -> TargetKey {
        TargetKey(raw)
    }
}

impl From<[u8; 6]> for TargetKey {
    fn from(raw: [u8; 6]) -> (r: Self) {
        TargetKey(raw)
    }
}

impl TargetKey {
    pub fn to_string(&self) -> (r: String)
        ensures
            r@ == dotted(self@),
    {
        AmsNetId(self.0).to_string()
    }
}

/// A tree, and when it was fetched.
pub struct CacheEntry {
    pub tree: Arc<SymbolTree>,
    pub fetched_at: Timestamp,
}

impl View for CacheEntry {
    type V = (SymbolTree, Timestamp);

    open spec fn view(&self) -> (SymbolTree, Timestamp) {
        (*self.tree, self.fetched_at)
    }
}

/// The last tree of each PLC.
pub struct SymbolTreeCache {
    inner: KeyMap<TargetKey, CacheEntry>,
}

impl View for SymbolTreeCache {
    type V = Map<Seq<u8>, (SymbolTree, Timestamp)>;

    closed spec fn view(&self) -> Map<Seq<u8>, (SymbolTree, Timestamp)> {
        self.inner@
    }
}

pub open spec fn target_views(targets: Seq<TargetKey>) -> Seq<Seq<u8>> {
    targets.map_values(|t: TargetKey| t@)
}

impl SymbolTreeCache {
    pub fn new() -> (r: Self)
        ensures
            r@ == Map::<Seq<u8>, (SymbolTree, Timestamp)>::empty(),
    {
        SymbolTreeCache { inner: KeyMap::new() }
    }

    /// The tree of `target`.
    pub fn get(&self, target: TargetKey) -> (r: Option<Arc<SymbolTree>>)
        ensures
            match r {
                Some(t) => self@.dom().contains(target@) && *t == self@[target@].0,
                None => !self@.dom().contains(target@),
            },
    {
        match self.inner.get(&target) {
            Some(e) => Some(e.tree.clone()),
            None => None,
        }
    }

    /// When the tree of `target` was fetched.
    pub fn fetched_at(&self, target: TargetKey) -> (r: Option<Timestamp>)
        ensures
            match r {
                Some(t) => self@.dom().contains(target@) && t == self@[target@].1,
                None => !self@.dom().contains(target@),
            },
    {
        match self.inner.get(&target) {
            Some(e) => Some(e.fetched_at),
            None => None,
        }
    }

    /// Sets the tree of `target`, as fetched now.
    pub fn insert(&mut self, target: TargetKey, tree: SymbolTree)
        ensures
            exists|now: Timestamp| final(self)@ == #[trigger] old(self)@.insert(target@, (tree, now)),
    {
        let now = utc_now();
        self.insert_with_time(target, tree, now);
    }

    /// Sets the tree of `target`, and when it was fetched.
    pub fn insert_with_time(&mut self, target: TargetKey, tree: SymbolTree, fetched_at: Timestamp)
        ensures
            final(self)@ == old(self)@.insert(target@, (tree, fetched_at)),
    {
        self.inner.insert(target, CacheEntry { tree: Arc::new(tree), fetched_at });
    }

    /// Forgets the tree of `target`.
    pub fn invalidate(&mut self, target: TargetKey)
        ensures
            final(self)@ == old(self)@.remove(target@),
    {
        self.inner.remove(&target);
    }

    /// Forgets all trees.
    pub fn invalidate_all(&mut self)
        ensures
            final(self)@ == Map::<Seq<u8>, (SymbolTree, Timestamp)>::empty(),
    {
        self.inner.clear();
    }

    pub fn len(&self) -> (r: usize)
        ensures
            r == self@.dom().len(),
    {
        self.inner.len()
    }

    pub fn is_empty(&self) -> (r: bool)
        ensures
            r == (self@ == Map::<Seq<u8>, (SymbolTree, Timestamp)>::empty()),
    {
        self.inner.is_empty()
    }

    /// The PLCs that have a tree, each once.
    pub fn targets(&self) -> (r: Vec<TargetKey>)
        ensures
            target_views(r@).no_duplicates(),
            forall|t: Seq<u8>| #[trigger] target_views(r@).contains(t) == self@.dom().contains(t),
    {
        let n: usize = self.inner.len();
        let ghost keys = crate::keymap::keys_of(self.inner.pairs());
        let mut r: Vec<TargetKey> = Vec::new();
        let mut i: usize = 0;
        assert(target_views(r@) =~= keys.take(0));
        while i < n
            invariant
                i <= n,
                n == self.inner.pairs().len(),
                keys == crate::keymap::keys_of(self.inner.pairs()),
                target_views(r@) == keys.take(i as int),
            decreases n - i,
        {
            let (k, _) = self.inner.entry_at(i);
            let ghost before = r@;
            r.push(*k);
            assert(target_views(r@) =~= target_views(before).push(k@));
            assert(keys.take(i + 1) =~= keys.take(i as int).push(keys[i as int]));
            i = i + 1;
        }
        assert(keys.take(n as int) =~= keys);
        r
    }
}

impl Default for SymbolTreeCache {
    fn default() -> (r: Self)
        ensures
            r@ == Map::<Seq<u8>, (SymbolTree, Timestamp)>::empty(),
    {
        SymbolTreeCache::new()
    }
}

/// A tree stays until its own target is set anew or invalidated; other targets do not matter.
pub proof fn law_targets_are_independent(
    trees: Map<Seq<u8>, (SymbolTree, Timestamp)>,
    target: Seq<u8>,
    tree: SymbolTree,
    fetched_at: Timestamp,
    other: Seq<u8>,
)
    ensures
        trees.insert(target, (tree, fetched_at))[target] == (tree, fetched_at),
        !trees.remove(target).dom().contains(target),
        trees.insert(target, (tree, fetched_at)).remove(target) == trees.remove(target),
        other != target && trees.dom().contains(other) ==> {
            &&& trees.insert(target, (tree, fetched_at)).dom().contains(other)
            &&& trees.insert(target, (tree, fetched_at))[other] == trees[other]
            &&& trees.remove(target).dom().contains(other)
            &&& trees.remove(target)[other] == trees[other]
        },
{
    assert(trees.insert(target, (tree, fetched_at)).remove(target) =~= trees.remove(target));
}

} // verus!
