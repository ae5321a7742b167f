//! A cache of the handles that PLCs give for symbol names.
use vstd::prelude::*;

use crate::keymap::{kept, KeyMap, MapKey};

verus! {

/// A symbol of one port of one PLC.
#[derive(Debug, PartialEq, Eq, Hash)]
pub struct SymbolHandleKey {
    pub ams_net_id: String,
    pub ams_port: u16,
    pub symbol: String,
}

pub struct SymbolHandleKeyView {
    pub ams_net_id: Seq<char>,
    pub ams_port: u16,
    pub symbol: Seq<char>,
}

impl View for SymbolHandleKey {
    type V = SymbolHandleKeyView;

    open spec fn view(&self) -> SymbolHandleKeyView {
        SymbolHandleKeyView { ams_net_id: self.ams_net_id@, ams_port: self.ams_port, symbol: self.symbol@ }
    }
}

impl MapKey for SymbolHandleKey {
    fn same(&self, other: &Self) -> (b: bool) {
        self.ams_port == other.ams_port && self.ams_net_id == other.ams_net_id && self.symbol == other.symbol
    }
}

impl Clone for SymbolHandleKey {
    fn clone(&self) -> (r: Self)
        ensures
            r@ == self@,
    {
        SymbolHandleKey {
            ams_net_id: self.ams_net_id.clone(),
            ams_port: self.ams_port,
            symbol: self.symbol.clone(),
        }
    }
}

#[derive(Debug, Clone, Copy, PartialEq, Eq, Structural)]
pub struct CachedSymbolHandle {
    pub handle: u32,
}

impl View for CachedSymbolHandle {
    type V = u32;

    open spec fn view(&self) -> u32 {
        self.handle
    }
}

/// The handles by symbol.
#[derive(Debug)]
pub struct SymbolHandleCache {
    cache: KeyMap<SymbolHandleKey, CachedSymbolHandle>,
}

impl View for SymbolHandleCache {
    type V = Map<SymbolHandleKeyView, u32>;

    closed spec fn view(&self) -> Map<SymbolHandleKeyView, u32> {
        self.cache@
    }
}

/// Whether a key is not of this port of this PLC.
pub open spec fn elsewhere(k: SymbolHandleKeyView, ams_net_id: Seq<char>, ams_port: u16) -> bool {
    !(k.ams_net_id == ams_net_id && k.ams_port == ams_port)
}

fn is_elsewhere(k: &SymbolHandleKey, ams_net_id: &String, ams_port: u16) -> (r: bool)
    ensures
        r == elsewhere(k@, ams_net_id@, ams_port),
{
    !(k.ams_net_id == *ams_net_id && k.ams_port == ams_port)
}

impl SymbolHandleCache {
    pub fn new() -> (r: Self)
        ensures
            r@ == Map::<SymbolHandleKeyView, u32>::empty(),
    {
        SymbolHandleCache { cache: KeyMap::new() }
    }

    pub fn get(&self, key: &SymbolHandleKey) -> (r: Option<CachedSymbolHandle>)
        ensures
            match r {
                Some(h) => self@.dom().contains(key@) && self@[key@] == h.handle,
                None => !self@.dom().contains(key@),
            },
    {
        match self.cache.get(key) {
            Some(h) => Some(*h),
            None => None,
        }
    }

    pub fn insert(&mut self, key: SymbolHandleKey, handle: CachedSymbolHandle)
        ensures
            final(self)@ == old(self)@.insert(key@, handle.handle),
    {
        self.cache.insert(key, handle);
    }

    pub fn remove(&mut self, key: &SymbolHandleKey)
        ensures
            final(self)@ == old(self)@.remove(key@),
    {
        self.cache.remove(key);
    }

    /// Forgets the handles of one port of one PLC.
    pub fn clear_target(&mut self, ams_net_id: &str, ams_port: u16)
        ensures
            final(self)@ == kept(
                old(self)@,
                |k: SymbolHandleKeyView, h: u32| elsewhere(k, ams_net_id@, ams_port),
            ),
    {
        let id = ams_net_id.to_string();
        let ghost keep = |k: SymbolHandleKeyView, h: u32| elsewhere(k, ams_net_id@, ams_port);
        let is_kept = |k: &SymbolHandleKey, h: &CachedSymbolHandle| -> (b: bool)
            ensures
                b == elsewhere(k@, id@, ams_port),
            { is_elsewhere(k, &id, ams_port) };
        self.cache.retain(is_kept, Ghost(keep));
    }

    pub fn clear(&mut self)
        ensures
            final(self)@ == Map::<SymbolHandleKeyView, u32>::empty(),
    {
        self.cache.clear();
    }
}

impl Default for SymbolHandleCache {
    fn default() -> (r: Self)
        ensures
            r@ == Map::<SymbolHandleKeyView, u32>::empty(),
    {
        SymbolHandleCache::new()
    }
}

/// Clearing a target forgets exactly its symbols: those of other targets keep their handles.
pub proof fn law_clearing_a_target_spares_the_others(
    m: Map<SymbolHandleKeyView, u32>,
    ams_net_id: Seq<char>,
    ams_port: u16,
    k: SymbolHandleKeyView,
)
    ensures
        ({
            let after = kept(m, |k: SymbolHandleKeyView, h: u32| elsewhere(k, ams_net_id, ams_port));
            if elsewhere(k, ams_net_id, ams_port) {
                after.dom().contains(k) == m.dom().contains(k) && (m.dom().contains(k) ==> after[k] == m[k])
            } else {
                !after.dom().contains(k)
            }
        }),
{
}

} // verus!
