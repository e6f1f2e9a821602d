//! An in-memory store of memory entries, kept in three collections by
//! lifecycle state: an entry lives in the collection of its state, and a
//! transition moves it.

use vstd::prelude::*;
use crate::ids::EntryId;
use crate::memory::entry::{MemoryEntry, MemoryState};
use crate::strmap::StrMap;
use crate::text::push_str;

verus! {

/// A store operation named an entry it does not hold.
#[derive(Debug, PartialEq, Eq)]
pub enum StoreError {
    NotFound(EntryId),
}

impl StoreError {
    /// The error as a sentence, e.g. `entry not found: e1`.
    pub fn message(&self) -> (s: String)
        ensures
            s@ == (match self {
                StoreError::NotFound(id) => "entry not found: "@ + id@,
            }),
    {
        proof {
            reveal_strlit("entry not found: ");
        }
        match self {
            StoreError::NotFound(id) => {
                let mut s = String::new();
                push_str(&mut s, "entry not found: ");
                push_str(&mut s, id.0.as_str());
                s
            },
        }
    }
}

/// Every entry of a collection is stored under its own identifier and is
/// in the collection's state.
pub open spec fn part_ok<S>(m: Map<Seq<char>, MemoryEntry<S>>, st: MemoryState) -> bool {
    forall|k: Seq<char>| #[trigger] m.dom().contains(k) ==> m[k].id@ == k && m[k].state == st
}

/// The entries of a store as one map.
pub open spec fn joined<S>(
    a: Map<Seq<char>, MemoryEntry<S>>,
    m: Map<Seq<char>, MemoryEntry<S>>,
    d: Map<Seq<char>, MemoryEntry<S>>,
) -> Map<Seq<char>, MemoryEntry<S>> {
    Map::new(
        |k: Seq<char>| a.dom().contains(k) || m.dom().contains(k) || d.dom().contains(k),
        |k: Seq<char>| if a.dom().contains(k) { a[k] } else if m.dom().contains(k) { m[k] } else { d[k] },
    )
}

/// The identifiers `list` gives: those of the entries in the state asked
/// for, or all of them.
pub open spec fn listed_in<S>(entries: Map<Seq<char>, MemoryEntry<S>>, state: Option<MemoryState>, k: Seq<char>) -> bool {
    entries.dom().contains(k) && match state {
        Some(st) => entries[k].state == st,
        None => true,
    }
}

/// The views of entry identifiers.
pub open spec fn id_views(v: Seq<EntryId>) -> Seq<Seq<char>> {
    v.map_values(|i: EntryId| i@)
}

/// An in-memory store of memory entries.
pub struct InMemoryStore<S> {
    alive: StrMap<MemoryEntry<S>>,
    moribund: StrMap<MemoryEntry<S>>,
    deceased: StrMap<MemoryEntry<S>>,
}

impl<S> InMemoryStore<S> {
    /// The three collections are well formed, hold entries of their own
    /// state under their identifiers, and share no identifier.
    pub closed spec fn wf(self) -> bool {
        &&& self.alive.wf()
        &&& self.moribund.wf()
        &&& self.deceased.wf()
        &&& part_ok(self.alive.map(), MemoryState::Alive)
        &&& part_ok(self.moribund.map(), MemoryState::Moribund)
        &&& part_ok(self.deceased.map(), MemoryState::Deceased)
        &&& forall|k: Seq<char>| !(#[trigger] self.alive.map().dom().contains(k) && self.moribund.map().dom().contains(k))
        &&& forall|k: Seq<char>| !(#[trigger] self.alive.map().dom().contains(k) && self.deceased.map().dom().contains(k))
        &&& forall|k: Seq<char>| !(#[trigger] self.moribund.map().dom().contains(k) && self.deceased.map().dom().contains(k))
    }

    /// Every entry, by identifier.
    pub closed spec fn entries(self) -> Map<Seq<char>, MemoryEntry<S>> {
        joined(self.alive.map(), self.moribund.map(), self.deceased.map())
    }

    /// The identifiers of the entries in a state, in the order stored.
    pub closed spec fn ids_in(self, st: MemoryState) -> Seq<Seq<char>> {
        match st {
            MemoryState::Alive => self.alive.key_seq(),
            MemoryState::Moribund => self.moribund.key_seq(),
            MemoryState::Deceased => self.deceased.key_seq(),
        }
    }

    /// Every identifier: the alive, then the moribund, then the deceased.
    pub open spec fn all_ids(self) -> Seq<Seq<char>> {
        self.ids_in(MemoryState::Alive) + self.ids_in(MemoryState::Moribund) + self.ids_in(MemoryState::Deceased)
    }

    /// What every store satisfies: entries sit under their identifiers, the
    /// identifiers of a state are listed once each, exactly those of the
    /// entries in that state.
    pub proof fn lemma_store(self)
        requires
            self.wf(),
        ensures
            self.entries().dom().finite(),
            forall|k: Seq<char>| #[trigger] self.entries().dom().contains(k) ==> self.entries()[k].id@ == k,
            forall|st: MemoryState| #[trigger] self.ids_in(st).no_duplicates(),
            forall|st: MemoryState, k: Seq<char>| #[trigger] self.ids_in(st).contains(k)
                <==> self.entries().dom().contains(k) && self.entries()[k].state == st,
    {
        self.alive.lemma_wf();
        self.moribund.lemma_wf();
        self.deceased.lemma_wf();
        assert(self.entries().dom() =~= self.alive.map().dom() + self.moribund.map().dom() + self.deceased.map().dom());
        assert forall|st: MemoryState, k: Seq<char>| #[trigger] self.ids_in(st).contains(k)
            <==> self.entries().dom().contains(k) && self.entries()[k].state == st by {
            if self.alive.map().dom().contains(k) {
                assert(self.alive.map()[k].state == MemoryState::Alive);
            }
            if self.moribund.map().dom().contains(k) {
                assert(self.moribund.map()[k].state == MemoryState::Moribund);
            }
            if self.deceased.map().dom().contains(k) {
                assert(self.deceased.map()[k].state == MemoryState::Deceased);
            }
        }
    }

    /// An empty store.
    pub fn new() -> (s: Self)
        ensures
            s.wf(),
            s.entries() == Map::<Seq<char>, MemoryEntry<S>>::empty(),
    {
        let s = InMemoryStore { alive: StrMap::new(), moribund: StrMap::new(), deceased: StrMap::new() };
        proof {
            s.alive.lemma_wf();
            s.moribund.lemma_wf();
            s.deceased.lemma_wf();
            assert(s.entries() =~= Map::<Seq<char>, MemoryEntry<S>>::empty());
        }
        s
    }

    /// Take an entry out of whichever collection holds it.
    fn remove_from_any(&mut self, id: &str) -> (r: Option<MemoryEntry<S>>)
        requires
            old(self).wf(),
        ensures
            final(self).wf(),
            final(self).entries() == old(self).entries().remove(id@),
            match r {
                Some(e) => old(self).entries().dom().contains(id@) && e == old(self).entries()[id@],
                None => !old(self).entries().dom().contains(id@),
            },
    {
        let ghost a = self.alive.map();
        let ghost m = self.moribund.map();
        let ghost d = self.deceased.map();
        match self.alive.remove(id) {
            Some(e) => {
                proof {
                    assert(!m.dom().contains(id@) && !d.dom().contains(id@));
                    assert(self.entries() =~= joined(a, m, d).remove(id@));
                }
                return Some(e);
            },
            None => {},
        }
        match self.moribund.remove(id) {
            Some(e) => {
                proof {
                    assert(!d.dom().contains(id@));
                    assert(self.entries() =~= joined(a, m, d).remove(id@));
                }
                return Some(e);
            },
            None => {},
        }
        let r = self.deceased.remove(id);
        proof {
            assert(self.entries() =~= joined(a, m, d).remove(id@));
        }
        r
    }

    /// Put an entry into the collection of its state.
    fn put(&mut self, entry: MemoryEntry<S>)
        requires
            old(self).wf(),
            !old(self).entries().dom().contains(entry.id@),
        ensures
            final(self).wf(),
            final(self).entries() == old(self).entries().insert(entry.id@, entry),
    {
        let ghost a = self.alive.map();
        let ghost m = self.moribund.map();
        let ghost d = self.deceased.map();
        let ghost k = entry.id@;
        let ghost e = entry;
        let key = entry.id.0.clone();
        match entry.state {
            MemoryState::Alive => {
                self.alive.insert(key, entry);
            },
            MemoryState::Moribund => {
                self.moribund.insert(key, entry);
            },
            MemoryState::Deceased => {
                self.deceased.insert(key, entry);
            },
        }
        proof {
            assert(self.entries() =~= joined(a, m, d).insert(k, e));
        }
    }

    /// Store an entry under its identifier, in the collection of its state,
    /// replacing any entry of that identifier.
    pub fn store(&mut self, entry: MemoryEntry<S>)
        requires
            old(self).wf(),
        ensures
            final(self).wf(),
            final(self).entries() == old(self).entries().insert(entry.id@, entry),
    {
        let _ = self.remove_from_any(entry.id.0.as_str());
        let ghost k = entry.id@;
        let ghost e = entry;
        self.put(entry);
        assert(self.entries() =~= old(self).entries().insert(k, e));
    }

    /// The entry of an identifier, if there is one.
    pub fn load(&self, id: &EntryId) -> (r: Option<&MemoryEntry<S>>)
        requires
            self.wf(),
        ensures
            match r {
                Some(e) => self.entries().dom().contains(id@) && *e == self.entries()[id@],
                None => !self.entries().dom().contains(id@),
            },
    {
        match self.alive.get(id.0.as_str()) {
            Some(e) => {
                return Some(e);
            },
            None => {},
        }
        match self.moribund.get(id.0.as_str()) {
            Some(e) => {
                return Some(e);
            },
            None => {},
        }
        self.deceased.get(id.0.as_str())
    }

    /// Move an entry to another state.
    pub fn transition(&mut self, id: &EntryId, new_state: MemoryState) -> (r: Result<(), StoreError>)
        requires
            old(self).wf(),
        ensures
            final(self).wf(),
            r is Ok == old(self).entries().dom().contains(id@),
            r is Ok ==> final(self).entries() == old(self).entries().insert(
                id@,
                MemoryEntry { state: new_state, ..old(self).entries()[id@] },
            ),
            r is Err ==> final(self).entries() == old(self).entries() && r == Err::<(), StoreError>(StoreError::NotFound(*id)),
    {
        match self.remove_from_any(id.0.as_str()) {
            None => {
                assert(self.entries() =~= old(self).entries());
                Err(StoreError::NotFound(id.clone()))
            },
            Some(entry) => {
                proof { old(self).lemma_store(); }
                let mut entry = entry;
                entry.state = new_state;
                let ghost e = entry;
                self.put(entry);
                assert(self.entries() =~= old(self).entries().insert(id@, e));
                Ok(())
            },
        }
    }

    /// Remove an entry.
    pub fn delete(&mut self, id: &EntryId) -> (r: Result<(), StoreError>)
        requires
            old(self).wf(),
        ensures
            final(self).wf(),
            r is Ok == old(self).entries().dom().contains(id@),
            final(self).entries() == old(self).entries().remove(id@),
            r is Err ==> r == Err::<(), StoreError>(StoreError::NotFound(*id)),
    {
        match self.remove_from_any(id.0.as_str()) {
            None => Err(StoreError::NotFound(id.clone())),
            Some(_) => Ok(()),
        }
    }

    /// The identifiers of the entries in a state, or of all entries: each
    /// once.
    pub fn list(&self, state: Option<MemoryState>) -> (r: Vec<EntryId>)
        requires
            self.wf(),
        ensures
            id_views(r@) == (match state {
                Some(st) => self.ids_in(st),
                None => self.all_ids(),
            }),
    {
        let mut out: Vec<EntryId> = Vec::new();
        assert(id_views(out@) =~= Seq::<Seq<char>>::empty());
        match state {
            Some(MemoryState::Alive) => {
                append_keys(&self.alive, &mut out);
            },
            Some(MemoryState::Moribund) => {
                append_keys(&self.moribund, &mut out);
            },
            Some(MemoryState::Deceased) => {
                append_keys(&self.deceased, &mut out);
            },
            None => {
                append_keys(&self.alive, &mut out);
                append_keys(&self.moribund, &mut out);
                append_keys(&self.deceased, &mut out);
            },
        }
        out
    }

    /// The number of entries in all states.
    pub fn total_count(&self) -> (n: usize)
        requires
            self.wf(),
            self.all_ids().len() <= usize::MAX,
        ensures
            n == self.all_ids().len(),
    {
        self.alive.len() + self.moribund.len() + self.deceased.len()
    }

    /// The number of entries in a state.
    pub fn count_by_state(&self, state: MemoryState) -> (n: usize)
        requires
            self.wf(),
        ensures
            n == self.ids_in(state).len(),
    {
        match state {
            MemoryState::Alive => self.alive.len(),
            MemoryState::Moribund => self.moribund.len(),
            MemoryState::Deceased => self.deceased.len(),
        }
    }

    /// The entries in a state, in the order stored.
    pub fn entries_by_state(&self, state: MemoryState) -> (r: Vec<&MemoryEntry<S>>)
        requires
            self.wf(),
        ensures
            r@.len() == self.ids_in(state).len(),
            forall|i: int| 0 <= i < r@.len() ==> *(#[trigger] r@[i]) == self.entries()[self.ids_in(state)[i]],
    {
        proof { self.lemma_store(); }
        let mut out: Vec<&MemoryEntry<S>> = Vec::new();
        match state {
            MemoryState::Alive => {
                append_values(&self.alive, &mut out);
            },
            MemoryState::Moribund => {
                append_values(&self.moribund, &mut out);
            },
            MemoryState::Deceased => {
                append_values(&self.deceased, &mut out);
            },
        }
        proof {
            self.alive.lemma_wf();
            self.moribund.lemma_wf();
            self.deceased.lemma_wf();
            assert forall|i: int| 0 <= i < out@.len() implies *(#[trigger] out@[i]) == self.entries()[self.ids_in(state)[i]] by {
                let k = self.ids_in(state)[i];
                match state {
                    MemoryState::Alive => {
                        assert(self.alive.key_seq().contains(k));
                    },
                    MemoryState::Moribund => {
                        assert(self.moribund.key_seq().contains(k));
                    },
                    MemoryState::Deceased => {
                        assert(self.deceased.key_seq().contains(k));
                    },
                }
            }
        }
        out
    }

    /// Every entry: the alive, then the moribund, then the deceased.
    pub fn all_entries(&self) -> (r: Vec<&MemoryEntry<S>>)
        requires
            self.wf(),
        ensures
            r@.len() == self.all_ids().len(),
            forall|i: int| 0 <= i < r@.len() ==> *(#[trigger] r@[i]) == self.entries()[self.all_ids()[i]],
    {
        proof { self.lemma_store(); }
        let mut out: Vec<&MemoryEntry<S>> = Vec::new();
        append_values(&self.alive, &mut out);
        append_values(&self.moribund, &mut out);
        append_values(&self.deceased, &mut out);
        proof {
            self.alive.lemma_wf();
            self.moribund.lemma_wf();
            self.deceased.lemma_wf();
            let ids = self.all_ids();
            assert forall|i: int| 0 <= i < out@.len() implies *(#[trigger] out@[i]) == self.entries()[ids[i]] by {
                let k = ids[i];
                let a = self.alive.key_seq();
                let m = self.moribund.key_seq();
                if i < a.len() {
                    assert(k == a[i]);
                    assert(a.contains(k));
                } else if i < a.len() + m.len() {
                    assert(k == m[i - a.len()]);
                    assert(m.contains(k));
                } else {
                    let dd = self.deceased.key_seq();
                    assert(k == dd[i - a.len() - m.len()]);
                    assert(dd.contains(k));
                }
            }
        }
        out
    }
}

/// Append the keys of a collection, as identifiers.
fn append_keys<S>(m: &StrMap<MemoryEntry<S>>, out: &mut Vec<EntryId>)
    requires
        m.wf(),
    ensures
        id_views(final(out)@) == id_views(old(out)@) + m.key_seq(),
{
    let ghost o0 = id_views(out@);
    let n = m.len();
    let mut i: usize = 0;
    assert(m.key_seq().take(0) =~= Seq::<Seq<char>>::empty());
    assert(id_views(out@) =~= o0 + m.key_seq().take(0));
    while i < n
        invariant
            m.wf(),
            n == m.key_seq().len(),
            i <= n,
            id_views(out@) == o0 + m.key_seq().take(i as int),
        decreases n - i,
    {
        let k = m.key_at(i);
        let ghost before = id_views(out@);
        out.push(EntryId(k.clone()));
        assert(id_views(out@) =~= before.push(k@));
        i = i + 1;
        assert(m.key_seq().take(i as int) =~= m.key_seq().take(i - 1).push(m.key_seq()[i - 1]));
    }
    assert(m.key_seq().take(n as int) =~= m.key_seq());
}

/// Append references to the values of a collection, in key order.
fn append_values<'a, S>(m: &'a StrMap<MemoryEntry<S>>, out: &mut Vec<&'a MemoryEntry<S>>)
    requires
        m.wf(),
    ensures
        final(out)@.len() == old(out)@.len() + m.key_seq().len(),
        forall|i: int| 0 <= i < old(out)@.len() ==> final(out)@[i] == old(out)@[i],
        forall|j: int| old(out)@.len() <= j < final(out)@.len() ==> *(#[trigger] final(out)@[j]) == m.map()[m.key_seq()[j - old(out)@.len()]],
{
    proof { m.lemma_wf(); }
    let ghost o0 = out@;
    let n = m.len();
    let mut i: usize = 0;
    while i < n
        invariant
            m.wf(),
            n == m.key_seq().len(),
            i <= n,
            out@.len() == o0.len() + i,
            forall|j: int| 0 <= j < o0.len() ==> out@[j] == o0[j],
            forall|j: int| o0.len() <= j < out@.len() ==> *(#[trigger] out@[j]) == m.map()[m.key_seq()[j - o0.len()]],
        decreases n - i,
    {
        proof { m.lemma_wf(); }
        let v = m.val_at(i);
        out.push(v);
        i = i + 1;
    }
}

} // verus!
