//! A small map from copyable keys to values, kept as two parallel vectors.
//!
//! Storage maps of the pallets (operators, delegators, deposits, snapshots)
//! are held in this type. Its abstract value is a `Map<K, V::V>`; entries keep
//! the order in which their keys were first inserted, which is the order in
//! which `key_at` / `value_at` hand them out.
use vstd::prelude::*;

verus! {

/// Keys that can be compared in executable code with a proved meaning.
pub trait MapKey: Copy + Sized {
    fn same(&self, other: &Self) -> (r: bool)
        ensures
            r == (*self == *other),
    ;
}

impl MapKey for u64 {
    fn same(&self, other: &Self) -> (r: bool) {
        *self == *other
    }
}

impl MapKey for u32 {
    fn same(&self, other: &Self) -> (r: bool) {
        *self == *other
    }
}

/// Values that can be copied with a proved abstract value.
pub trait Duplicate: View + Sized {
    fn duplicate(&self) -> (r: Self)
        ensures
            r@ == self@,
    ;
}

impl Duplicate for u128 {
    fn duplicate(&self) -> (r: u128) {
        *self
    }
}

impl Duplicate for u64 {
    fn duplicate(&self) -> (r: u64) {
        *self
    }
}

/// A finite map whose entries are stored in insertion order.
#[derive(Debug)]
pub struct KeyedMap<K, V> {
    keys: Vec<K>,
    vals: Vec<V>,
}

impl<K, V> KeyedMap<K, V> {
    #[verifier::type_invariant]
    spec fn inv(self) -> bool {
        &&& self.keys@.len() == self.vals@.len()
        &&& self.keys@.no_duplicates()
    }
}

impl<K: MapKey, V: View> View for KeyedMap<K, V> {
    type V = Map<K, V::V>;

    /// The abstract map.
    closed spec fn view(&self) -> Map<K, V::V> {
        Map::new(
            |k: K| self.keys@.contains(k),
            |k: K| self.vals@[self.keys@.index_of(k)]@,
        )
    }
}

impl<K: MapKey, V: View> KeyedMap<K, V> {
    /// The keys, in storage order.
    pub closed spec fn key_seq(&self) -> Seq<K> {
        self.keys@
    }

    /// The abstract values, in storage order.
    pub closed spec fn val_seq(&self) -> Seq<V::V> {
        self.vals@.map_values(|v: V| v@)
    }


    proof fn lemma_index_of(&self, i: int)
        requires
            0 <= i < self.keys@.len(),
            self.keys@.no_duplicates(),
        ensures
            self.keys@.index_of(self.keys@[i]) == i,
    {
        let k = self.keys@[i];
        assert(self.keys@.contains(k));
        let j = self.keys@.index_of(k);
        assert(0 <= j < self.keys@.len() && self.keys@[j] == k);
    }

    /// What the stored sequences say of the abstract map.
    pub open spec fn consistent(&self) -> bool {
        &&& self.key_seq().len() == self.val_seq().len()
        &&& self.key_seq().no_duplicates()
        &&& self.view().dom() == self.key_seq().to_set()
        &&& self.view().dom().finite()
        &&& self.view().dom().len() == self.key_seq().len()
        &&& forall|i: int|
            0 <= i < self.key_seq().len() ==> #[trigger] self.view()[self.key_seq()[i]]
                == self.val_seq()[i]
    }

    proof fn lemma_view(&self)
        requires
            self.keys@.len() == self.vals@.len(),
            self.keys@.no_duplicates(),
        ensures
            self.consistent(),
    {
        assert forall|i: int| 0 <= i < self.key_seq().len() implies #[trigger] self.view()[self.key_seq()[i]]
            == self.val_seq()[i] by {
            self.lemma_index_of(i);
        }
        assert(self.view().dom() =~= self.key_seq().to_set());
        self.keys@.unique_seq_to_set();
    }

    pub fn new() -> (m: Self)
        ensures
            m@ == Map::<K, V::V>::empty(),
            m.key_seq().len() == 0,
    {
        let m = KeyedMap { keys: Vec::new(), vals: Vec::new() };
        assert(m@ =~= Map::<K, V::V>::empty());
        m
    }

    pub fn len(&self) -> (n: usize)
        ensures
            self.consistent(),
            n == self.key_seq().len(),
            n == self@.dom().len(),
    {
        proof {
            use_type_invariant(self);
            self.lemma_view();
        }
        self.keys.len()
    }

    pub fn key_at(&self, i: usize) -> (k: K)
        requires
            i < self.key_seq().len(),
        ensures
            self.consistent(),
            k == self.key_seq()[i as int],
            self@.contains_key(k),
            self@[k] == self.val_seq()[i as int],
    {
        proof {
            use_type_invariant(self);
            self.lemma_view();
        }
        self.keys[i]
    }

    pub fn value_at(&self, i: usize) -> (v: &V)
        requires
            i < self.key_seq().len(),
        ensures
            self.consistent(),
            v@ == self.val_seq()[i as int],
            v@ == self@[self.key_seq()[i as int]],
    {
        proof {
            use_type_invariant(self);
            self.lemma_view();
        }
        &self.vals[i]
    }

    fn find(&self, k: &K) -> (r: Option<usize>)
        ensures
            match r {
                Some(i) => i < self.keys@.len() && self.keys@[i as int] == *k,
                None => !self.keys@.contains(*k),
            },
    {
        proof {
            use_type_invariant(self);
        }
        let n = self.keys.len();
        let mut i: usize = 0;
        while i < n
            invariant
                n == self.keys@.len(),
                i <= n,
                forall|j: int| 0 <= j < i ==> self.keys@[j] != *k,
            decreases n - i,
        {
            if self.keys[i].same(k) {
                return Some(i);
            }
            i = i + 1;
        }
        None
    }

    pub fn contains_key(&self, k: &K) -> (r: bool)
        ensures
            r == self@.contains_key(*k),
    {
        match self.find(k) {
            Some(_) => true,
            None => false,
        }
    }

    /// The value stored for `k`, as an executable value.
    pub closed spec fn stored(&self, k: K) -> V {
        self.vals@[self.keys@.index_of(k)]
    }

    pub fn get(&self, k: &K) -> (r: Option<&V>)
        ensures
            match r {
                Some(v) => self@.contains_key(*k) && v@ == self@[*k] && *v == self.stored(*k),
                None => !self@.contains_key(*k),
            },
    {
        match self.find(k) {
            Some(i) => {
                proof {
                    use_type_invariant(self);
                    self.lemma_index_of(i as int);
                }
                Some(&self.vals[i])
            },
            None => None,
        }
    }

    /// Inserts or replaces the value of `k`; a new key goes at the end.
    pub fn insert(&mut self, k: K, v: V)
        ensures
            final(self)@ == old(self)@.insert(k, v@),
            old(self)@.contains_key(k) ==> final(self).key_seq() == old(self).key_seq(),
            !old(self)@.contains_key(k) ==> final(self).key_seq() == old(self).key_seq().push(k),
    {
        proof {
            use_type_invariant(&*self);
        }
        let ghost old_self = *self;
        let ghost vv = v@;
        let found = self.find(&k);
        let mut taken = KeyedMap { keys: Vec::new(), vals: Vec::new() };
        std::mem::swap(self, &mut taken);
        let KeyedMap { keys: mut keys, vals: mut vals } = taken;
        match found {
            Some(i) => {
                vals.set(i, v);
                *self = KeyedMap { keys, vals };
                proof {
                    use_type_invariant(&*self);
                    assert forall|key: K| #[trigger] self@.contains_key(key) <==> old_self@.insert(
                        k,
                        vv,
                    ).contains_key(key) by {}
                    assert forall|key: K| self@.contains_key(key) implies #[trigger] self@[key]
                        == old_self@.insert(k, vv)[key] by {
                        let j = self.keys@.index_of(key);
                        self.lemma_index_of(j);
                        old_self.lemma_index_of(j);
                        self.lemma_index_of(i as int);
                    }
                    assert(self@ =~= old_self@.insert(k, vv));
                }
            },
            None => {
                keys.push(k);
                vals.push(v);
                proof {
                    assert forall|a: int, b: int|
                        0 <= a < b < keys@.len() implies keys@[a] != keys@[b] by {
                        if b == keys@.len() - 1 {
                            assert(old_self.keys@[a] == keys@[a]);
                        }
                    }
                }
                *self = KeyedMap { keys, vals };
                proof {
                    use_type_invariant(&*self);
                    assert forall|key: K| #[trigger] self@.contains_key(key) <==> old_self@.insert(
                        k,
                        vv,
                    ).contains_key(key) by {
                        assert(self.keys@ == old_self.keys@.push(k));
                        if key != k && self.keys@.contains(key) {
                            let j = self.keys@.index_of(key);
                            assert(old_self.keys@[j] == key);
                        }
                        if old_self.keys@.contains(key) {
                            let j = old_self.keys@.index_of(key);
                            assert(self.keys@[j] == key);
                        }
                        if key == k {
                            assert(self.keys@[self.keys@.len() - 1] == key);
                        }
                    }
                    assert forall|key: K| self@.contains_key(key) implies #[trigger] self@[key]
                        == old_self@.insert(k, vv)[key] by {
                        let j = self.keys@.index_of(key);
                        self.lemma_index_of(j);
                        if key != k {
                            assert(j < old_self.keys@.len());
                            old_self.lemma_index_of(j);
                        } else {
                            self.lemma_index_of(self.keys@.len() - 1);
                        }
                    }
                    assert(self@ =~= old_self@.insert(k, vv));
                }
            },
        }
    }

    /// Removes `k` and hands back its value, keeping the order of the others.
    pub fn remove(&mut self, k: &K) -> (r: Option<V>)
        ensures
            final(self)@ == old(self)@.remove(*k),
            match r {
                Some(v) => old(self)@.contains_key(*k) && v@ == old(self)@[*k] && v == old(
                    self,
                ).stored(*k) && final(self).key_seq() == old(self).key_seq().remove(
                    old(self).key_seq().index_of(*k),
                ),
                None => !old(self)@.contains_key(*k) && final(self).key_seq() == old(self).key_seq(),
            },
    {
        proof {
            use_type_invariant(&*self);
        }
        let ghost old_self = *self;
        match self.find(k) {
            Some(i) => {
                proof {
                    old_self.lemma_index_of(i as int);
                }
                let mut taken = KeyedMap { keys: Vec::new(), vals: Vec::new() };
        std::mem::swap(self, &mut taken);
                let KeyedMap { keys: mut keys, vals: mut vals } = taken;
                let ghost ks0 = keys@;
                keys.remove(i);
                let v = vals.remove(i);
                proof {
                    assert forall|a: int, b: int|
                        0 <= a < b < keys@.len() implies keys@[a] != keys@[b] by {
                        let oa = if a < i { a } else { a + 1 };
                        let ob = if b < i { b } else { b + 1 };
                        assert(old_self.keys@[oa] != old_self.keys@[ob]);
                    }
                }
                *self = KeyedMap { keys, vals };
                proof {
                    use_type_invariant(&*self);
                    assert forall|key: K| #[trigger] self@.contains_key(key) <==> old_self@.remove(
                        *k,
                    ).contains_key(key) by {
                        if self.keys@.contains(key) {
                            let j = self.keys@.index_of(key);
                            let oj = if j < i { j } else { j + 1 };
                            assert(old_self.keys@[oj] == key);
                            assert(key != *k);
                        }
                        if old_self.keys@.contains(key) && key != *k {
                            let j = old_self.keys@.index_of(key);
                            assert(j != i);
                            let nj = if j < i { j } else { j - 1 };
                            assert(self.keys@[nj] == key);
                        }
                    }
                    assert forall|key: K| self@.contains_key(key) implies #[trigger] self@[key]
                        == old_self@.remove(*k)[key] by {
                        let j = self.keys@.index_of(key);
                        self.lemma_index_of(j);
                        let oj = if j < i { j } else { j + 1 };
                        old_self.lemma_index_of(oj);
                    }
                    assert(self@ =~= old_self@.remove(*k));
                    assert(old_self.keys@.index_of(*k) == i);
                    assert(self.keys@ =~= ks0.remove(i as int));
                }
                Some(v)
            },
            None => {
                proof {
                    assert(self@ =~= old_self@.remove(*k));
                }
                None
            },
        }
    }
}

impl<K: MapKey, V: Duplicate> KeyedMap<K, V> {
    /// A copy of the map, with its entries in the same order.
    pub fn duplicate(&self) -> (r: Self)
        ensures
            r@ == self@,
            r.key_seq() == self.key_seq(),
    {
        proof {
            use_type_invariant(self);
        }
        let n = self.keys.len();
        let mut keys: Vec<K> = Vec::new();
        let mut vals: Vec<V> = Vec::new();
        let mut i: usize = 0;
        while i < n
            invariant
                n == self.keys@.len(),
                n == self.vals@.len(),
                i <= n,
                keys@ == self.keys@.take(i as int),
                vals@.len() == i,
                forall|j: int| 0 <= j < i ==> (#[trigger] vals@[j])@ == self.vals@[j]@,
            decreases n - i,
        {
            keys.push(self.keys[i]);
            vals.push(self.vals[i].duplicate());
            proof {
                assert(self.keys@.take(i as int + 1) =~= self.keys@.take(i as int).push(
                    self.keys@[i as int],
                ));
            }
            i = i + 1;
        }
        proof {
            assert(self.keys@.take(n as int) =~= self.keys@);
        }
        let r = KeyedMap { keys, vals };
        proof {
            assert(r@ =~= self@);
        }
        r
    }
}

} // verus!
