//! A map keyed by strings, kept as parallel vectors in insertion order.
//!
//! The view is a `Map` from the key's characters to the value; the key
//! order is exposed as `key_seq` for operations whose result follows it.

use vstd::prelude::*;
use crate::text::views;

verus! {

/// A string-keyed map with unique keys in insertion order.
pub struct StrMap<V> {
    keys: Vec<String>,
    vals: Vec<V>,
}

impl<V> StrMap<V> {
    /// The keys are unique and aligned with the values.
    pub closed spec fn wf(self) -> bool {
        &&& self.keys.len() == self.vals.len()
        &&& views(self.keys@).no_duplicates()
    }

    /// The keys in insertion order.
    pub closed spec fn key_seq(self) -> Seq<Seq<char>> {
        views(self.keys@)
    }

    /// The values, in the order of their keys.
    pub closed spec fn val_seq(self) -> Seq<V> {
        self.vals@
    }

    /// The map from keys to values.
    pub closed spec fn map(self) -> Map<Seq<char>, V> {
        Self::map_of(views(self.keys@), self.vals@)
    }

    /// The map from keys to the values at the same positions.
    spec fn map_of(ks: Seq<Seq<char>>, vs: Seq<V>) -> Map<Seq<char>, V> {
        Map::new(|k: Seq<char>| ks.contains(k), |k: Seq<char>| vs[ks.index_of(k)])
    }

    /// Facts that hold of every map: keys are unique, aligned with values,
    /// and the map agrees with the two sequences.
    pub proof fn lemma_wf(&self)
        requires
            self.wf(),
        ensures
            self.key_seq().no_duplicates(),
            self.key_seq().len() == self.val_seq().len(),
            forall|k: Seq<char>| #[trigger] self.map().dom().contains(k) <==> self.key_seq().contains(k),
            forall|i: int| 0 <= i < self.key_seq().len() ==> #[trigger] self.map()[self.key_seq()[i]] == self.val_seq()[i],
            self.map().dom().finite(),
    {
        assert forall|i: int| 0 <= i < self.key_seq().len() implies #[trigger] self.map()[self.key_seq()[i]] == self.val_seq()[i] by {
            let k = self.key_seq()[i];
            assert(self.key_seq().contains(k));
            let j = self.key_seq().index_of(k);
            assert(self.key_seq()[j] == k);
        }
        assert(self.map().dom() =~= self.key_seq().to_set());
    }

    /// An empty map.
    pub fn new() -> (m: Self)
        ensures
            m.wf(),
            m.key_seq() == Seq::<Seq<char>>::empty(),
            m.val_seq() == Seq::<V>::empty(),
            m.map() == Map::<Seq<char>, V>::empty(),
    {
        let m = StrMap { keys: Vec::new(), vals: Vec::new() };
        assert(m.map() =~= Map::<Seq<char>, V>::empty());
        assert(views(m.keys@) =~= Seq::<Seq<char>>::empty());
        m
    }

    /// Number of keys.
    pub fn len(&self) -> (n: usize)
        requires
            self.wf(),
        ensures
            n == self.key_seq().len(),
    {
        self.keys.len()
    }

    /// Position of a key in insertion order.
    pub fn find(&self, k: &str) -> (r: Option<usize>)
        requires
            self.wf(),
        ensures
            match r {
                Some(i) => i < self.key_seq().len() && self.key_seq()[i as int] == k@,
                None => !self.key_seq().contains(k@),
            },
    {
        let mut i: usize = 0;
        while i < self.keys.len()
            invariant
                i <= self.keys.len(),
                forall|j: int| 0 <= j < i ==> views(self.keys@)[j] != k@,
            decreases self.keys.len() - i,
        {
            if crate::text::str_eq(self.keys[i].as_str(), k) {
                return Some(i);
            }
            i = i + 1;
        }
        None
    }

    /// The key at a position.
    pub fn key_at(&self, i: usize) -> (k: &String)
        requires
            self.wf(),
            i < self.key_seq().len(),
        ensures
            k@ == self.key_seq()[i as int],
    {
        &self.keys[i]
    }

    /// The value at a position.
    pub fn val_at(&self, i: usize) -> (v: &V)
        requires
            self.wf(),
            i < self.key_seq().len(),
        ensures
            *v == self.val_seq()[i as int],
    {
        &self.vals[i]
    }

    /// The value of a key, if present.
    pub fn get(&self, k: &str) -> (r: Option<&V>)
        requires
            self.wf(),
        ensures
            match r {
                Some(v) => self.map().dom().contains(k@) && *v == self.map()[k@],
                None => !self.map().dom().contains(k@),
            },
    {
        proof { self.lemma_wf(); }
        match self.find(k) {
            Some(i) => Some(&self.vals[i]),
            None => None,
        }
    }

    /// The value of a key, if present, to change in place; the keys stay.
    pub fn get_mut(&mut self, k: &str) -> (r: Option<&mut V>)
        requires
            old(self).wf(),
        ensures
            final(self).key_seq() == old(self).key_seq(),
            match r {
                Some(v) => {
                    &&& old(self).map().dom().contains(k@)
                    &&& *v == old(self).map()[k@]
                    &&& final(self).wf()
                    &&& final(self).map() == old(self).map().insert(k@, *final(v))
                },
                None => !old(self).map().dom().contains(k@) && *final(self) == *old(self),
            },
    {
        proof { self.lemma_wf(); }
        match self.find(k) {
            Some(i) => {
                let ghost ks = views(self.keys@);
                let ghost vs = self.vals@;
                proof {
                    assert(ks[i as int] == k@);
                    assert forall|x: V| #[trigger] Self::map_of(ks, vs.update(i as int, x)) == Self::map_of(ks, vs).insert(k@, x) by {
                        assert forall|q: Seq<char>| ks.contains(q) implies Self::map_of(ks, vs.update(i as int, x))[q] == Self::map_of(ks, vs).insert(k@, x)[q] by {
                            let j = ks.index_of(q);
                            assert(ks[j] == q);
                            if q == k@ {
                                assert(j == i);
                            } else {
                                assert(j != i);
                            }
                        }
                        assert(Self::map_of(ks, vs.update(i as int, x)) =~= Self::map_of(ks, vs).insert(k@, x));
                    }
                }
                Some(&mut self.vals[i])
            },
            None => None,
        }
    }

    /// Whether a key is present.
    pub fn contains_key(&self, k: &str) -> (r: bool)
        requires
            self.wf(),
        ensures
            r == self.map().dom().contains(k@),
    {
        proof { self.lemma_wf(); }
        self.find(k).is_some()
    }

    /// Replace the value at a position.
    pub fn set_at(&mut self, i: usize, v: V)
        requires
            old(self).wf(),
            i < old(self).key_seq().len(),
        ensures
            final(self).wf(),
            final(self).key_seq() == old(self).key_seq(),
            final(self).val_seq() == old(self).val_seq().update(i as int, v),
            final(self).map() == old(self).map().insert(old(self).key_seq()[i as int], v),
    {
        proof { self.lemma_wf(); }
        let ghost old_map = self.map();
        let ghost ks = views(self.keys@);
        self.vals.set(i, v);
        proof {
            assert(views(self.keys@) == ks);
            assert forall|k: Seq<char>| #[trigger] self.map().dom().contains(k) implies self.map()[k] == old_map.insert(ks[i as int], v)[k] by {
                let j = ks.index_of(k);
                if k == ks[i as int] {
                    assert(ks[j] == k);
                } else {
                    assert(old_map[k] == old(self).vals@[j]);
                }
            }
            assert(self.map() =~= old_map.insert(ks[i as int], v));
        }
    }

    /// Insert or replace the value of a key; a new key goes last.
    pub fn insert(&mut self, k: String, v: V)
        requires
            old(self).wf(),
        ensures
            final(self).wf(),
            final(self).map() == old(self).map().insert(k@, v),
            old(self).key_seq().contains(k@) ==> final(self).key_seq() == old(self).key_seq(),
            !old(self).key_seq().contains(k@) ==> final(self).key_seq() == old(self).key_seq().push(k@),
            !old(self).key_seq().contains(k@) ==> final(self).val_seq() == old(self).val_seq().push(v),
    {
        match self.find(k.as_str()) {
            Some(i) => {
                self.set_at(i, v);
            },
            None => {
                proof { self.lemma_wf(); }
                let ghost old_map = self.map();
                let ghost ks = views(self.keys@);
                let ghost kv = k@;
                self.keys.push(k);
                self.vals.push(v);
                proof {
                    assert(views(self.keys@) =~= ks.push(kv));
                    assert forall|x: Seq<char>| views(self.keys@).contains(x) <==> (ks.contains(x) || x == kv) by {
                        let nk = views(self.keys@);
                        if nk.contains(x) {
                            let j = choose|j: int| 0 <= j < nk.len() && nk[j] == x;
                            if j < ks.len() { assert(ks[j] == x); }
                        }
                        if ks.contains(x) {
                            let j = choose|j: int| 0 <= j < ks.len() && ks[j] == x;
                            assert(nk[j] == x);
                        }
                        if x == kv { assert(nk[ks.len() as int] == kv); }
                    }
                    assert forall|x: Seq<char>| #[trigger] self.map().dom().contains(x) implies self.map()[x] == old_map.insert(kv, v)[x] by {
                        let nk = views(self.keys@);
                        let j = nk.index_of(x);
                        if x == kv {
                            assert(nk[ks.len() as int] == kv);
                        } else {
                            assert(ks.contains(x)) by {
                                assert(nk[j] == x);
                            }
                            let j0 = ks.index_of(x);
                            assert(nk[j0] == x);
                        }
                    }
                    assert(self.map() =~= old_map.insert(kv, v));
                }
            },
        }
    }

    /// Remove a key, returning its value if it was present.
    pub fn remove(&mut self, k: &str) -> (r: Option<V>)
        requires
            old(self).wf(),
        ensures
            final(self).wf(),
            final(self).map() == old(self).map().remove(k@),
            match r {
                Some(v) => old(self).map().dom().contains(k@) && v == old(self).map()[k@],
                None => !old(self).map().dom().contains(k@),
            },
            forall|x: Seq<char>| final(self).key_seq().contains(x) <==> old(self).key_seq().contains(x) && x != k@,
            old(self).key_seq().contains(k@) ==> final(self).key_seq() == old(self).key_seq().remove(old(self).key_seq().index_of(k@)),
            !old(self).key_seq().contains(k@) ==> final(self).key_seq() == old(self).key_seq(),
    {
        proof { self.lemma_wf(); }
        match self.find(k) {
            Some(i) => {
                let ghost old_map = self.map();
                let ghost ks = views(self.keys@);
                let ghost vs = self.vals@;
                self.keys.remove(i);
                let v = self.vals.remove(i);
                proof {
                    let nk = views(self.keys@);
                    assert(nk =~= ks.remove(i as int));
                    assert(ks.contains(k@)) by { assert(ks[i as int] == k@); }
                    assert(ks.index_of(k@) == i) by {
                        let j = ks.index_of(k@);
                        assert(ks[j] == k@);
                    }
                    assert forall|x: Seq<char>| nk.contains(x) <==> ks.contains(x) && x != k@ by {
                        if nk.contains(x) {
                            let j = choose|j: int| 0 <= j < nk.len() && nk[j] == x;
                            if j < i { assert(ks[j] == x); } else { assert(ks[j + 1] == x); }
                        }
                        if ks.contains(x) && x != k@ {
                            let j = choose|j: int| 0 <= j < ks.len() && ks[j] == x;
                            if j < i { assert(nk[j] == x); } else { assert(j != i); assert(nk[j - 1] == x); }
                        }
                    }
                    assert forall|x: Seq<char>| #[trigger] self.map().dom().contains(x) implies self.map()[x] == old_map.remove(k@)[x] by {
                        let j = nk.index_of(x);
                        assert(nk[j] == x);
                        if j < i {
                            assert(ks[j] == x);
                            assert(old_map[x] == vs[j]);
                        } else {
                            assert(ks[j + 1] == x);
                            assert(old_map[x] == vs[j + 1]);
                        }
                    }
                    assert(self.map() =~= old_map.remove(k@));
                }
                Some(v)
            },
            None => {
                proof {
                    assert(self.map() =~= self.map().remove(k@));
                }
                None
            },
        }
    }
}

impl<V: Clone> StrMap<V> {
    /// A copy of the map whose values are clones of the originals.
    pub fn duplicate(&self) -> (r: Self)
        requires
            self.wf(),
        ensures
            r.wf(),
            r.key_seq() == self.key_seq(),
            r.val_seq().len() == self.val_seq().len(),
            forall|i: int| 0 <= i < self.val_seq().len() ==> cloned::<V>(self.val_seq()[i], #[trigger] r.val_seq()[i]),
    {
        let mut keys: Vec<String> = Vec::new();
        let mut vals: Vec<V> = Vec::new();
        let mut i: usize = 0;
        while i < self.keys.len()
            invariant
                self.wf(),
                i <= self.keys.len(),
                keys@ == self.keys@.subrange(0, i as int),
                vals.len() == i,
                forall|j: int| 0 <= j < i ==> cloned::<V>(self.vals@[j], #[trigger] vals@[j]),
            decreases self.keys.len() - i,
        {
            keys.push(self.keys[i].clone());
            vals.push(self.vals[i].clone());
            i = i + 1;
            assert(keys@ =~= self.keys@.subrange(0, i as int));
        }
        assert(keys@ =~= self.keys@);
        StrMap { keys, vals }
    }
}

} // verus!
