//! A map held as a list of pairs whose keys are all different.
use vstd::prelude::*;

verus! {

/// A key whose equality is the equality of its view.
pub trait MapKey: View + Sized {
    fn same(&self, other: &Self) -> (b: bool)
        ensures
            b == (self@ == other@),
    ;
}

impl MapKey for String {
    fn same(&self, other: &Self) -> (b: bool) {
        *self == *other
    }
}

impl MapKey for u16 {
    fn same(&self, other: &Self) -> (b: bool) {
        *self == *other
    }
}

impl MapKey for usize {
    fn same(&self, other: &Self) -> (b: bool) {
        *self == *other
    }
}

/// The keys of `pairs`, in order.
pub open spec fn keys_of<A, B>(pairs: Seq<(A, B)>) -> Seq<A> {
    Seq::new(pairs.len(), |i: int| pairs[i].0)
}

/// The map that `pairs` stands for.
pub open spec fn map_of<A, B>(pairs: Seq<(A, B)>) -> Map<A, B> {
    Map::new(
        |k: A| keys_of(pairs).contains(k),
        |k: A| pairs[choose|i: int| 0 <= i < pairs.len() && pairs[i].0 == k].1,
    )
}

/// Each pair of a list with different keys is an entry of its map.
pub proof fn lemma_map_of<A, B>(pairs: Seq<(A, B)>, i: int)
    requires
        keys_of(pairs).no_duplicates(),
        0 <= i < pairs.len(),
    ensures
        map_of(pairs).dom().contains(pairs[i].0),
        map_of(pairs)[pairs[i].0] == pairs[i].1,
{
    let k = pairs[i].0;
    assert(keys_of(pairs)[i] == k);
    let j = choose|j: int| 0 <= j < pairs.len() && pairs[j].0 == k;
    assert(keys_of(pairs)[j] == k);
}

pub proof fn lemma_map_of_push<A, B>(pairs: Seq<(A, B)>, k: A, v: B)
    requires
        keys_of(pairs).no_duplicates(),
        !keys_of(pairs).contains(k),
    ensures
        keys_of(pairs.push((k, v))).no_duplicates(),
        map_of(pairs.push((k, v))) == map_of(pairs).insert(k, v),
{
    let next = pairs.push((k, v));
    assert(keys_of(next) =~= keys_of(pairs).push(k));
    assert forall|x: A| map_of(next).dom().contains(x) <==> map_of(pairs).insert(k, v).dom().contains(x) by {
        if keys_of(next).contains(x) {
            let i = choose|i: int| 0 <= i < keys_of(next).len() && keys_of(next)[i] == x;
            if i < pairs.len() {
                assert(keys_of(pairs)[i] == x);
            }
        }
        if keys_of(pairs).contains(x) {
            let i = choose|i: int| 0 <= i < keys_of(pairs).len() && keys_of(pairs)[i] == x;
            assert(keys_of(next)[i] == x);
        }
        assert(keys_of(next)[pairs.len() as int] == k);
    }
    assert forall|x: A| #[trigger] map_of(next).dom().contains(x) implies map_of(next)[x] == map_of(pairs).insert(k, v)[x] by {
        let i = choose|i: int| 0 <= i < keys_of(next).len() && keys_of(next)[i] == x;
        lemma_map_of(next, i);
        if i < pairs.len() {
            lemma_map_of(pairs, i);
            assert(keys_of(pairs)[i] == x);
        }
    }
    assert(map_of(next) =~= map_of(pairs).insert(k, v));
}

proof fn lemma_map_of_update<A, B>(pairs: Seq<(A, B)>, at: int, k: A, v: B)
    requires
        keys_of(pairs).no_duplicates(),
        0 <= at < pairs.len(),
        pairs[at].0 == k,
    ensures
        keys_of(pairs.update(at, (k, v))) == keys_of(pairs),
        map_of(pairs.update(at, (k, v))) == map_of(pairs).insert(k, v),
{
    let next = pairs.update(at, (k, v));
    assert(keys_of(next) =~= keys_of(pairs));
    assert(keys_of(pairs)[at] == k);
    assert forall|x: A| #[trigger] map_of(next).dom().contains(x) implies map_of(next)[x] == map_of(pairs).insert(k, v)[x] by {
        let i = choose|i: int| 0 <= i < keys_of(next).len() && keys_of(next)[i] == x;
        lemma_map_of(next, i);
        lemma_map_of(pairs, i);
        lemma_map_of(next, at);
        if i != at {
            assert(keys_of(pairs)[i] != keys_of(pairs)[at]);
        }
    }
    assert(map_of(next) =~= map_of(pairs).insert(k, v));
}

proof fn lemma_map_of_remove<A, B>(pairs: Seq<(A, B)>, at: int)
    requires
        keys_of(pairs).no_duplicates(),
        0 <= at < pairs.len(),
    ensures
        keys_of(pairs.remove(at)).no_duplicates(),
        map_of(pairs.remove(at)) == map_of(pairs).remove(pairs[at].0),
{
    let next = pairs.remove(at);
    let k = pairs[at].0;
    assert(keys_of(next) =~= keys_of(pairs).remove(at));
    assert(keys_of(pairs)[at] == k);
    assert forall|i: int, j: int| 0 <= i < next.len() && 0 <= j < next.len() && i != j implies keys_of(next)[i] != keys_of(next)[j] by {
        let a = if i < at { i } else { i + 1 };
        let b = if j < at { j } else { j + 1 };
        assert(keys_of(next)[i] == keys_of(pairs)[a]);
        assert(keys_of(next)[j] == keys_of(pairs)[b]);
    }
    assert forall|x: A| map_of(next).dom().contains(x) <==> map_of(pairs).remove(k).dom().contains(x) by {
        if keys_of(next).contains(x) {
            let i = choose|i: int| 0 <= i < keys_of(next).len() && keys_of(next)[i] == x;
            let a = if i < at { i } else { i + 1 };
            assert(keys_of(pairs)[a] == x);
        }
        if keys_of(pairs).contains(x) && x != k {
            let a = choose|a: int| 0 <= a < keys_of(pairs).len() && keys_of(pairs)[a] == x;
            let i = if a < at { a } else { a - 1 };
            assert(keys_of(next)[i] == x);
        }
    }
    assert forall|x: A| #[trigger] map_of(next).dom().contains(x) implies map_of(next)[x] == map_of(pairs).remove(k)[x] by {
        let i = choose|i: int| 0 <= i < keys_of(next).len() && keys_of(next)[i] == x;
        let a = if i < at { i } else { i + 1 };
        assert(next[i] == pairs[a]);
        lemma_map_of(next, i);
        lemma_map_of(pairs, a);
    }
    assert(map_of(next) =~= map_of(pairs).remove(k));
}

/// The map of a list with different keys has as many entries as the list has pairs.
pub proof fn lemma_map_of_len<A, B>(pairs: Seq<(A, B)>)
    requires
        keys_of(pairs).no_duplicates(),
    ensures
        map_of(pairs).dom().finite(),
        map_of(pairs).dom().len() == pairs.len(),
{
    keys_of(pairs).unique_seq_to_set();
    assert(map_of(pairs).dom() =~= keys_of(pairs).to_set());
}

/// A map from keys to values. Entries keep the order in which their keys first came.
#[derive(Debug)]
pub struct KeyMap<K: MapKey, V: View> {
    entries: Vec<(K, V)>,
}

impl<K: MapKey, V: View> View for KeyMap<K, V> {
    type V = Map<K::V, V::V>;

    open spec fn view(&self) -> Map<K::V, V::V> {
        map_of(self.pairs())
    }
}

impl<K: MapKey, V: View> KeyMap<K, V> {
    /// The entries in order.
    pub closed spec fn pairs(&self) -> Seq<(K::V, V::V)> {
        Seq::new(self.entries@.len(), |i: int| (self.entries@[i].0@, self.entries@[i].1@))
    }

    #[verifier::type_invariant]
    spec fn distinct(&self) -> bool {
        keys_of(self.pairs()).no_duplicates()
    }

    pub fn new() -> (r: Self)
        ensures
            r@ == Map::<K::V, V::V>::empty(),
            r.pairs().len() == 0,
    {
        let r = KeyMap { entries: Vec::new() };
        assert(r@ =~= Map::<K::V, V::V>::empty());
        r
    }

    fn position(&self, key: &K) -> (r: Option<usize>)
        ensures
            match r {
                Some(i) => i < self.pairs().len() && self.pairs()[i as int].0 == key@,
                None => !keys_of(self.pairs()).contains(key@),
            },
    {
        let mut i: usize = 0;
        while i < self.entries.len()
            invariant
                i <= self.entries@.len(),
                forall|j: int| 0 <= j < i ==> self.pairs()[j].0 != key@,
            decreases self.entries@.len() - i,
        {
            if self.entries[i].0.same(key) {
                return Some(i);
            }
            i = i + 1;
        }
        None
    }

    /// Sets the value of `key`, replacing what was there.
    pub fn insert(&mut self, key: K, value: V)
        ensures
            final(self)@ == old(self)@.insert(key@, value@),
    {
        proof {
            use_type_invariant(&*self);
        }
        let ghost before = self.pairs();
        let ghost k = key@;
        let ghost v = value@;
        let at = self.position(&key);
        let mut entries: Vec<(K, V)> = Vec::new();
        std::mem::swap(&mut entries, &mut self.entries);
        match at {
            Some(i) => {
                entries[i] = (key, value);
                proof {
                    lemma_map_of_update(before, i as int, k, v);
                }
                let ghost after = Seq::new(entries@.len(), |j: int| (entries@[j].0@, entries@[j].1@));
                assert(after =~= before.update(i as int, (k, v)));
            },
            None => {
                entries.push((key, value));
                proof {
                    lemma_map_of_push(before, k, v);
                }
                let ghost after = Seq::new(entries@.len(), |j: int| (entries@[j].0@, entries@[j].1@));
                assert(after =~= before.push((k, v)));
            },
        }
        self.entries = entries;
    }

    /// The value of `key`.
    pub fn get(&self, key: &K) -> (r: Option<&V>)
        ensures
            match r {
                Some(v) => self@.dom().contains(key@) && v@ == self@[key@],
                None => !self@.dom().contains(key@),
            },
    {
        proof {
            use_type_invariant(self);
        }
        match self.position(key) {
            Some(i) => {
                proof {
                    lemma_map_of(self.pairs(), i as int);
                }
                Some(&self.entries[i].1)
            },
            None => None,
        }
    }

    pub fn contains_key(&self, key: &K) -> (r: bool)
        ensures
            r == self@.dom().contains(key@),
    {
        match self.get(key) {
            Some(_) => true,
            None => false,
        }
    }

    /// Takes the entry of `key` out.
    pub fn remove(&mut self, key: &K) -> (r: Option<V>)
        ensures
            final(self)@ == old(self)@.remove(key@),
            match r {
                Some(v) => old(self)@.dom().contains(key@) && v@ == old(self)@[key@],
                None => !old(self)@.dom().contains(key@),
            },
    {
        match self.position(key) {
            Some(i) => {
                let (_, v) = self.remove_at(i);
                Some(v)
            },
            None => {
                assert(old(self)@ =~= old(self)@.remove(key@));
                None
            },
        }
    }

    /// Takes the entry at place `i` out.
    pub fn remove_at(&mut self, i: usize) -> (r: (K, V))
        requires
            i < old(self).pairs().len(),
        ensures
            r.0@ == old(self).pairs()[i as int].0,
            r.1@ == old(self).pairs()[i as int].1,
            final(self).pairs() == old(self).pairs().remove(i as int),
            final(self)@ == old(self)@.remove(r.0@),
            old(self)@.dom().contains(r.0@),
            old(self)@[r.0@] == r.1@,
    {
        proof {
            use_type_invariant(&*self);
        }
        let ghost before = self.pairs();
        let mut entries: Vec<(K, V)> = Vec::new();
        std::mem::swap(&mut entries, &mut self.entries);
        let r = entries.remove(i);
        proof {
            lemma_map_of_remove(before, i as int);
            lemma_map_of(before, i as int);
        }
        let ghost after = Seq::new(entries@.len(), |j: int| (entries@[j].0@, entries@[j].1@));
        assert(after =~= before.remove(i as int));
        self.entries = entries;
        r
    }

    pub fn len(&self) -> (r: usize)
        ensures
            r == self@.dom().len(),
            r == self.pairs().len(),
            self@.dom().finite(),
            keys_of(self.pairs()).no_duplicates(),
    {
        proof {
            use_type_invariant(self);
            lemma_map_of_len(self.pairs());
        }
        self.entries.len()
    }

    pub fn is_empty(&self) -> (r: bool)
        ensures
            r == (self@ == Map::<K::V, V::V>::empty()),
            r == (self.pairs().len() == 0),
    {
        proof {
            use_type_invariant(self);
            if self.pairs().len() == 0 {
                assert(self@ =~= Map::<K::V, V::V>::empty());
            } else {
                lemma_map_of(self.pairs(), 0);
            }
        }
        self.entries.len() == 0
    }

    /// The entry at place `i`.
    pub fn entry_at(&self, i: usize) -> (r: (&K, &V))
        requires
            i < self.pairs().len(),
        ensures
            r.0@ == self.pairs()[i as int].0,
            r.1@ == self.pairs()[i as int].1,
            self@.dom().contains(r.0@),
            self@[r.0@] == r.1@,
    {
        proof {
            use_type_invariant(self);
            lemma_map_of(self.pairs(), i as int);
        }
        (&self.entries[i].0, &self.entries[i].1)
    }

    pub fn clear(&mut self)
        ensures
            final(self)@ == Map::<K::V, V::V>::empty(),
    {
        self.entries = Vec::new();
        assert(self@ =~= Map::<K::V, V::V>::empty());
    }

    /// Keeps the entries that `f` accepts; `keep` says which those are.
    pub fn retain<F: Fn(&K, &V) -> bool>(&mut self, f: F, Ghost(keep): Ghost<spec_fn(K::V, V::V) -> bool>)
        requires
            forall|k: &K, v: &V| f.requires((k, v)),
            forall|k: &K, v: &V, b: bool| f.ensures((k, v), b) ==> b == keep(k@, v@),
        ensures
            final(self)@ == kept(old(self)@, keep),
    {
        let ghost before = self@;
        let mut i: usize = 0;
        let mut n: usize = self.len();
        while i < n
            invariant
                i <= n,
                n == self.pairs().len(),
                forall|k: &K, v: &V| f.requires((k, v)),
                forall|k: &K, v: &V, b: bool| f.ensures((k, v), b) ==> b == keep(k@, v@),
                forall|j: int| 0 <= j < i ==> keep(#[trigger] self.pairs()[j].0, self.pairs()[j].1),
                forall|k: K::V| #[trigger]
                    self@.dom().contains(k) ==> before.dom().contains(k) && before[k] == self@[k],
                forall|k: K::V| #[trigger]
                    before.dom().contains(k) && keep(k, before[k]) ==> self@.dom().contains(k),
            decreases n - i,
        {
            let (k, v) = self.entry_at(i);
            let ghost pairs = self.pairs();
            if f(k, v) {
                assert(keep(pairs[i as int].0, pairs[i as int].1));
                i = i + 1;
            } else {
                let ghost dropped = pairs[i as int];
                assert(!keep(dropped.0, dropped.1));
                self.remove_at(i);
                assert(self.pairs() =~= pairs.remove(i as int));
                assert forall|j: int| 0 <= j < i implies keep(#[trigger] self.pairs()[j].0, self.pairs()[j].1) by {
                    assert(self.pairs()[j] == pairs[j]);
                    assert(keep(pairs[j].0, pairs[j].1));
                }
                n = n - 1;
            }
        }
        proof {
            use_type_invariant(&*self);
        }
        assert forall|k: K::V| #[trigger] self@.dom().contains(k) implies keep(k, self@[k]) by {
            assert(keys_of(self.pairs()).contains(k));
            let j = choose|j: int| 0 <= j < keys_of(self.pairs()).len() && keys_of(self.pairs())[j] == k;
            assert(self.pairs()[j].0 == k);
            lemma_map_of(self.pairs(), j);
        }
        assert(self@ =~= kept(before, keep));
    }
}

/// The entries of `m` that `keep` accepts.
pub open spec fn kept<A, B>(m: Map<A, B>, keep: spec_fn(A, B) -> bool) -> Map<A, B> {
    m.restrict(Set::new(|k: A| m.dom().contains(k) && keep(k, m[k])))
}

/// A set of keys, in the order in which they first came.
#[derive(Debug)]
pub struct KeySet<K: MapKey> {
    map: KeyMap<K, ()>,
}

impl<K: MapKey> View for KeySet<K> {
    type V = Set<K::V>;

    closed spec fn view(&self) -> Set<K::V> {
        self.map@.dom()
    }
}

impl<K: MapKey> KeySet<K> {
    /// The keys in order.
    pub closed spec fn items(&self) -> Seq<K::V> {
        keys_of(self.map.pairs())
    }

    pub fn new() -> (r: Self)
        ensures
            r@ == Set::<K::V>::empty(),
    {
        let r = KeySet { map: KeyMap::new() };
        assert(r@ =~= Set::<K::V>::empty());
        r
    }

    pub fn insert(&mut self, key: K)
        ensures
            final(self)@ == old(self)@.insert(key@),
    {
        self.map.insert(key, ());
        assert(self@ =~= old(self)@.insert(key@));
    }

    pub fn contains(&self, key: &K) -> (r: bool)
        ensures
            r == self@.contains(key@),
    {
        self.map.contains_key(key)
    }

    /// How many keys there are. Each is listed once.
    pub fn len(&self) -> (r: usize)
        ensures
            r == self@.len(),
            r == self.items().len(),
            self.items().no_duplicates(),
            forall|k: K::V| self@.contains(k) == #[trigger] self.items().contains(k),
    {
        self.map.len()
    }

    /// The key at place `i`.
    pub fn at(&self, i: usize) -> (r: &K)
        requires
            i < self.items().len(),
        ensures
            r@ == self.items()[i as int],
    {
        self.map.entry_at(i).0
    }
}

/// Whether `list` holds the elements of `set`, each once.
pub open spec fn lists<A>(list: Seq<A>, set: Set<A>) -> bool {
    list.no_duplicates() && forall|a: A| #[trigger] list.contains(a) == set.contains(a)
}

/// Pushing an element adds it, and nothing else.
pub proof fn lemma_push_contains<A>(s: Seq<A>, a: A)
    ensures
        forall|x: A| #[trigger] s.push(a).contains(x) == (s.contains(x) || x == a),
{
    assert forall|x: A| #[trigger] s.push(a).contains(x) == (s.contains(x) || x == a) by {
        if s.contains(x) {
            let i = choose|i: int| 0 <= i < s.len() && s[i] == x;
            assert(s.push(a)[i] == x);
        }
        if x == a {
            assert(s.push(a)[s.len() as int] == x);
        }
    }
}

/// Pushing a new element makes no duplicate.
pub proof fn lemma_push_no_duplicates<A>(s: Seq<A>, a: A)
    requires
        s.no_duplicates(),
        !s.contains(a),
    ensures
        s.push(a).no_duplicates(),
{
}

/// The next element is the one that taking one more adds, and it is new.
pub proof fn lemma_take_push<A>(s: Seq<A>, i: int)
    requires
        0 <= i < s.len(),
        s.no_duplicates(),
    ensures
        forall|x: A| #[trigger] s.take(i + 1).contains(x) == (s.take(i).contains(x) || x == s[i]),
        !s.take(i).contains(s[i]),
{
    assert(s.take(i + 1) =~= s.take(i).push(s[i]));
    lemma_push_contains(s.take(i), s[i]);
}

} // verus!
