//! A map from numbers to values.
use std::collections::HashMap;

use vstd::prelude::*;

verus! {

broadcast use vstd::std_specs::hash::group_hash_axioms;

/// A map from 32-bit numbers to values.
#[derive(Debug)]
pub struct IdMap<V: View> {
    entries: HashMap<u32, V>,
}

impl<V: View> View for IdMap<V> {
    type V = Map<u32, V::V>;

    closed spec fn view(&self) -> Map<u32, V::V> {
        self.entries@.map_values(|v: V| v@)
    }
}

impl<V: View> IdMap<V> {
    pub fn new() -> (r: Self)
        ensures
            r@ == Map::<u32, V::V>::empty(),
    {
        let r = IdMap { entries: HashMap::new() };
        assert(r@ =~= Map::<u32, V::V>::empty());
        r
    }

    /// Sets the value of `id`, replacing what was there.
    pub fn insert(&mut self, id: u32, value: V)
        ensures
            final(self)@ == old(self)@.insert(id, value@),
    {
        self.entries.insert(id, value);
        assert(self@ =~= old(self)@.insert(id, value@));
    }

    /// The value of `id`.
    pub fn get(&self, id: &u32) -> (r: Option<&V>)
        ensures
            match r {
                Some(v) => self@.dom().contains(*id) && v@ == self@[*id],
                None => !self@.dom().contains(*id),
            },
    {
        self.entries.get(id)
    }

    /// Takes the value of `id` out.
    pub fn remove(&mut self, id: &u32) -> (r: Option<V>)
        ensures
            final(self)@ == old(self)@.remove(*id),
            match r {
                Some(v) => old(self)@.dom().contains(*id) && v@ == old(self)@[*id],
                None => !old(self)@.dom().contains(*id),
            },
    {
        let r = self.entries.remove(id);
        assert(self@ =~= old(self)@.remove(*id));
        r
    }
}

} // verus!
