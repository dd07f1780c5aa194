//! A map keyed by `Id` that keeps its entries in insertion order.
//!
//! It is the keyed collection that the registries of recipients, tasks and
//! lifecycle notifiers are made of.

use crate::ids::Id;
use vstd::prelude::*;

verus! {

/// A map from `Id` to values, with its entries kept in insertion order.
pub struct IdMap<V> {
    entries: Vec<(Id, V)>,
    model: Ghost<Map<Id, V>>,
}

impl<V> View for IdMap<V> {
    type V = Map<Id, V>;

    closed spec fn view(&self) -> Map<Id, V> {
        self.model@
    }
}

impl<V> IdMap<V> {
    /// The entries in the order in which their keys were first inserted.
    pub closed spec fn entries(&self) -> Seq<(Id, V)> {
        self.entries@
    }

    /// The keys in insertion order.
    pub open spec fn key_seq(&self) -> Seq<Id> {
        self.entries().map_values(|e: (Id, V)| e.0)
    }

    /// Well-formedness: the keys are distinct and the entries are exactly the
    /// contents of the map.
    pub closed spec fn wf(&self) -> bool {
        let e = self.entries@;
        let m = self.model@;
        &&& forall|i: int, j: int|
            0 <= i < e.len() && 0 <= j < e.len() && i != j ==> #[trigger] e[i].0 != #[trigger] e[j].0
        &&& forall|i: int| 0 <= i < e.len() ==> #[trigger] m.contains_key(e[i].0) && m[e[i].0] == e[i].1
        &&& forall|k: Id| #[trigger] m.contains_key(k) ==> exists|i: int| 0 <= i < e.len() && e[i].0 == k
        &&& m.dom().finite()
        &&& m.dom().len() == e.len()
    }

    /// The entries describe the map: each key once, each with its value.
    pub proof fn lemma_entries(&self)
        requires
            self.wf(),
        ensures
            self.entries().len() == self@.dom().len(),
            self@.dom().finite(),
            forall|i: int|
                0 <= i < self.entries().len() ==> #[trigger] self@.contains_key(self.entries()[i].0)
                    && self@[self.entries()[i].0] == self.entries()[i].1,
            forall|k: Id|
                #[trigger] self@.contains_key(k) ==> exists|i: int|
                    0 <= i < self.entries().len() && self.entries()[i].0 == k,
            forall|i: int, j: int|
                0 <= i < self.entries().len() && 0 <= j < self.entries().len() && i != j
                    ==> #[trigger] self.entries()[i].0 != #[trigger] self.entries()[j].0,
    {
    }

    /// The key sequence lists each key of the map exactly once.
    pub proof fn lemma_key_seq(&self)
        requires
            self.wf(),
        ensures
            self.key_seq().no_duplicates(),
            self.key_seq().len() == self@.dom().len(),
            forall|k: Id| #[trigger] self.key_seq().contains(k) <==> self@.contains_key(k),
    {
        let ks = self.key_seq();
        let e = self.entries@;
        assert forall|k: Id| #[trigger] ks.contains(k) <==> self@.contains_key(k) by {
            if ks.contains(k) {
                let i = choose|i: int| 0 <= i < ks.len() && ks[i] == k;
                assert(e[i].0 == k);
            }
            if self@.contains_key(k) {
                let i = choose|i: int| 0 <= i < e.len() && e[i].0 == k;
                assert(ks[i] == k);
            }
        }
        assert forall|i: int, j: int| 0 <= i < ks.len() && 0 <= j < ks.len() && i != j implies ks[i] != ks[j] by {
            assert(ks[i] == e[i].0 && ks[j] == e[j].0);
        }
    }

    /// Creates an empty map.
    pub fn new() -> (m: Self)
        ensures
            m.wf(),
            m@ == Map::<Id, V>::empty(),
            m.entries().len() == 0,
    {
        IdMap { entries: Vec::new(), model: Ghost(Map::empty()) }
    }

    /// Position of `id` among the entries, if it is a key.
    fn find(&self, id: &Id) -> (r: Option<usize>)
        requires
            self.wf(),
        ensures
            match r {
                Some(i) => i < self.entries().len() && self.entries()[i as int].0 == *id,
                None => !self@.contains_key(*id),
            },
    {
        let mut i: usize = 0;
        while i < self.entries.len()
            invariant
                self.wf(),
                i <= self.entries@.len(),
                forall|j: int| 0 <= j < i ==> self.entries@[j].0 != *id,
            decreases self.entries@.len() - i,
        {
            if self.entries[i].0 == *id {
                return Some(i);
            }
            i = i + 1;
        }
        None
    }

    /// Number of entries.
    pub fn len(&self) -> (n: usize)
        requires
            self.wf(),
        ensures
            n == self@.len(),
            n == self.entries().len(),
    {
        self.entries.len()
    }

    /// Is the map empty?
    pub fn is_empty(&self) -> (b: bool)
        requires
            self.wf(),
        ensures
            b == (self@.len() == 0),
            b == (self@ == Map::<Id, V>::empty()),
    {
        proof {
            if self@.len() == 0 {
                assert(self@.dom() =~= Set::<Id>::empty());
                assert(self@ =~= Map::<Id, V>::empty());
            }
        }
        self.entries.len() == 0
    }

    /// Is `id` a key?
    pub fn contains(&self, id: &Id) -> (b: bool)
        requires
            self.wf(),
        ensures
            b == self@.contains_key(*id),
    {
        self.find(id).is_some()
    }

    /// The value under `id`, if any.
    pub fn get(&self, id: &Id) -> (r: Option<&V>)
        requires
            self.wf(),
        ensures
            match r {
                Some(v) => self@.contains_key(*id) && *v == self@[*id],
                None => !self@.contains_key(*id),
            },
    {
        match self.find(id) {
            Some(i) => {
                proof {
                    assert(self.model@.contains_key(self.entries@[i as int].0));
                }
                Some(&self.entries[i].1)
            },
            None => None,
        }
    }

    /// Puts `value` under `id` and returns the value it replaces. A new key
    /// goes last; a present key keeps its place.
    pub fn insert(&mut self, id: Id, value: V) -> (old_value: Option<V>)
        requires
            old(self).wf(),
        ensures
            final(self).wf(),
            final(self)@ == old(self)@.insert(id, value),
            match old_value {
                Some(v) => old(self)@.contains_key(id) && v == old(self)@[id],
                None => !old(self)@.contains_key(id),
            },
            old(self)@.contains_key(id) ==> final(self).key_seq() == old(self).key_seq(),
            !old(self)@.contains_key(id) ==> final(self).key_seq() == old(self).key_seq().push(id),
    {
        match self.find(&id) {
            Some(i) => {
                let (k, old_v) = self.entries.remove(i);
                self.entries.insert(i, (k, value));
                proof {
                    self.model@ = self.model@.insert(id, value);
                    assert(self.entries@ =~= old(self).entries@.update(i as int, (id, value)));
                    assert(self.model@.dom() =~= old(self).model@.dom());
                    assert forall|k2: Id| #[trigger] self.model@.contains_key(k2) implies exists|j: int|
                        0 <= j < self.entries@.len() && self.entries@[j].0 == k2 by {
                        assert(old(self).model@.contains_key(k2));
                        let j = choose|j: int|
                            0 <= j < old(self).entries@.len() && old(self).entries@[j].0 == k2;
                        assert(self.entries@[j].0 == k2);
                    }
                    assert(self.key_seq() =~= old(self).key_seq());
                }
                Some(old_v)
            },
            None => {
                self.entries.push((id, value));
                proof {
                    self.model@ = self.model@.insert(id, value);
                    let n = old(self).entries@.len() as int;
                    assert forall|k2: Id| #[trigger] self.model@.contains_key(k2) implies exists|j: int|
                        0 <= j < self.entries@.len() && self.entries@[j].0 == k2 by {
                        if k2 == id {
                            assert(self.entries@[n].0 == k2);
                        } else {
                            assert(old(self).model@.contains_key(k2));
                            let j = choose|j: int|
                                0 <= j < old(self).entries@.len() && old(self).entries@[j].0 == k2;
                            assert(self.entries@[j].0 == k2);
                        }
                    }
                    assert forall|i: int| 0 <= i < n implies #[trigger] self.entries@[i].0 != id by {
                        assert(old(self).model@.contains_key(old(self).entries@[i].0));
                    }
                    assert(self.key_seq() =~= old(self).key_seq().push(id));
                }
                None
            },
        }
    }

    /// Removes the entry under `id` and returns its value, if any. The other
    /// entries keep their order.
    pub fn remove(&mut self, id: &Id) -> (removed: Option<V>)
        requires
            old(self).wf(),
        ensures
            final(self).wf(),
            final(self)@ == old(self)@.remove(*id),
            match removed {
                Some(v) => old(self)@.contains_key(*id) && v == old(self)@[*id],
                None => !old(self)@.contains_key(*id) && final(self).key_seq() == old(self).key_seq(),
            },
            final(self).key_seq() == old(self).key_seq().filter(other_than(*id)),
    {
        let ghost pred = other_than(*id);
        match self.find(id) {
            Some(i) => {
                let (_k, v) = self.entries.remove(i);
                proof {
                    self.model@ = self.model@.remove(*id);
                    let oe = old(self).entries@;
                    assert forall|k2: Id| #[trigger] self.model@.contains_key(k2) implies exists|j: int|
                        0 <= j < self.entries@.len() && self.entries@[j].0 == k2 by {
                        assert(old(self).model@.contains_key(k2));
                        let j = choose|j: int| 0 <= j < oe.len() && oe[j].0 == k2;
                        if j < i {
                            assert(self.entries@[j].0 == k2);
                        } else {
                            assert(j != i);
                            assert(self.entries@[j - 1].0 == k2);
                        }
                    }
                    lemma_filter_drops_unique_key(old(self).key_seq(), i as int, *id);
                    assert(self.key_seq() =~= old(self).key_seq().remove(i as int));
                }
                Some(v)
            },
            None => {
                proof {
                    assert(self.model@ =~= self.model@.remove(*id));
                    assert forall|j: int| 0 <= j < self.key_seq().len() implies pred(
                        #[trigger] self.key_seq()[j],
                    ) by {
                        assert(old(self).model@.contains_key(old(self).entries@[j].0));
                    }
                    lemma_filter_keeps_all(self.key_seq(), pred);
                }
                None
            },
        }
    }

    /// The entry at position `i`, in insertion order.
    pub fn entry_at(&self, i: usize) -> (e: (&Id, &V))
        requires
            self.wf(),
            i < self.entries().len(),
        ensures
            *e.0 == self.entries()[i as int].0,
            *e.1 == self.entries()[i as int].1,
            self@.contains_key(*e.0),
            self@[*e.0] == *e.1,
    {
        proof {
            assert(self.model@.contains_key(self.entries@[i as int].0));
        }
        let entry = &self.entries[i];
        (&entry.0, &entry.1)
    }

    /// The keys in insertion order.
    pub fn keys(&self) -> (ks: Vec<Id>)
        requires
            self.wf(),
        ensures
            ks@ == self.key_seq(),
    {
        let mut ks: Vec<Id> = Vec::new();
        let mut i: usize = 0;
        while i < self.entries.len()
            invariant
                i <= self.entries@.len(),
                ks@ == self.key_seq().take(i as int),
            decreases self.entries@.len() - i,
        {
            ks.push(self.entries[i].0);
            i = i + 1;
            proof {
                assert(ks@ =~= self.key_seq().take(i as int));
            }
        }
        proof {
            assert(ks@ =~= self.key_seq());
        }
        ks
    }
}

/// The predicate that holds of every identifier but `id`.
pub open spec fn other_than(id: Id) -> spec_fn(Id) -> bool {
    |k: Id| k != id
}

/// Filtering out a key that occurs exactly once, at `i`, is removing position `i`.
proof fn lemma_filter_drops_unique_key(s: Seq<Id>, i: int, id: Id)
    requires
        0 <= i < s.len(),
        s[i] == id,
        forall|j: int| 0 <= j < s.len() && j != i ==> s[j] != id,
    ensures
        s.filter(other_than(id)) == s.remove(i),
    decreases s.len(),
{
    let pred = other_than(id);
    reveal(Seq::filter);
    if i == s.len() - 1 {
        assert(s.drop_last() =~= s.remove(i));
        lemma_filter_keeps_all(s.drop_last(), pred);
    } else {
        lemma_filter_drops_unique_key(s.drop_last(), i, id);
        assert(s.drop_last().remove(i) =~= s.remove(i).drop_last());
        assert(s.remove(i) =~= s.remove(i).drop_last().push(s.last()));
    }
}

/// Filtering by a predicate that holds of every element keeps the sequence.
proof fn lemma_filter_keeps_all(s: Seq<Id>, pred: spec_fn(Id) -> bool)
    requires
        forall|j: int| 0 <= j < s.len() ==> pred(#[trigger] s[j]),
    ensures
        s.filter(pred) == s,
    decreases s.len(),
{
    reveal(Seq::filter);
    if s.len() > 0 {
        lemma_filter_keeps_all(s.drop_last(), pred);
        assert(s =~= s.drop_last().push(s.last()));
    }
}

} // verus!
