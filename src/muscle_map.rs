//! Connector weights and the muscle cross-references that they hold.
use vstd::prelude::*;

use crate::EntityId;

verus! {

/// Map from the edge at the other end of a muscle to the muscle's handle. Each key
/// stands once; the order of the entries is the order of insertion.
///
/// A vector of pairs rather than the engine's hash map: that map's type carries an
/// allocator parameter bounded by a trait of a crate this library does not depend on, so
/// it cannot be declared to the verifier.
#[derive(Clone, Debug)]
pub struct MuscleMap {
    entries: Vec<(u32, EntityId)>,
}

/// Some position of `s` whose key is `k`.
pub open spec fn key_position(s: Seq<(u32, EntityId)>, k: u32) -> int {
    choose|i: int| 0 <= i < s.len() && s[i].0 == k
}

/// Whether no key of `s` stands twice.
pub open spec fn keys_unique(s: Seq<(u32, EntityId)>) -> bool {
    forall|i: int, j: int| 0 <= i < s.len() && 0 <= j < s.len() && s[i].0 == s[j].0 ==> i == j
}

/// The map that a sequence of entries with unique keys stands for.
pub open spec fn entries_map(s: Seq<(u32, EntityId)>) -> Map<u32, EntityId> {
    Map::new(
        |k: u32| exists|i: int| 0 <= i < s.len() && s[i].0 == k,
        |k: u32| s[key_position(s, k)].1,
    )
}

impl View for MuscleMap {
    type V = Map<u32, EntityId>;

    closed spec fn view(&self) -> Map<u32, EntityId> {
        entries_map(self.entries@)
    }
}

proof fn lemma_entry_in_map(s: Seq<(u32, EntityId)>, i: int)
    requires
        keys_unique(s),
        0 <= i < s.len(),
    ensures
        entries_map(s).contains_key(s[i].0),
        entries_map(s)[s[i].0] == s[i].1,
{
    let k = s[i].0;
    assert(exists|j: int| 0 <= j < s.len() && s[j].0 == k);
    let p = key_position(s, k);
    assert(s[p].0 == k);
}

impl MuscleMap {
    /// The entries, in order of insertion.
    pub closed spec fn entries(&self) -> Seq<(u32, EntityId)> {
        self.entries@
    }

    /// Each key stands once.
    pub closed spec fn wf(&self) -> bool {
        keys_unique(self.entries@)
    }

    /// The keys, in order of insertion.
    pub open spec fn key_seq(&self) -> Seq<u32> {
        self.entries().map_values(|p: (u32, EntityId)| p.0)
    }

    pub proof fn lemma_view(&self)
        requires
            self.wf(),
        ensures
            self@ == entries_map(self.entries()),
            keys_unique(self.entries()),
            forall|i: int|
                0 <= i < self.entries().len() ==> #[trigger] self@.contains_key(self.entries()[i].0)
                    && self@[self.entries()[i].0] == self.entries()[i].1,
            forall|k: u32|
                #[trigger] self@.contains_key(k) ==> exists|i: int|
                    0 <= i < self.entries().len() && self.entries()[i].0 == k,
            self.entries().len() == self@.dom().len(),
            self@.dom().finite(),
    {
        assert forall|i: int| 0 <= i < self.entries().len() implies #[trigger] self@.contains_key(
            self.entries()[i].0,
        ) && self@[self.entries()[i].0] == self.entries()[i].1 by {
            lemma_entry_in_map(self.entries@, i);
        }
        self.lemma_len();
    }

    proof fn lemma_len(&self)
        requires
            self.wf(),
        ensures
            self.entries().len() == self@.dom().len(),
            self@.dom().finite(),
    {
        let s = self.entries@;
        let keys = s.map_values(|p: (u32, EntityId)| p.0);
        assert(keys.no_duplicates()) by {
            assert forall|i: int, j: int|
                0 <= i < keys.len() && 0 <= j < keys.len() && i != j implies keys[i]
                != keys[j] by {
                assert(s[i].0 == keys[i] && s[j].0 == keys[j]);
            }
        }
        assert(keys.to_set() =~= self@.dom()) by {
            assert forall|k: u32| keys.to_set().contains(k) implies self@.dom().contains(k) by {
                let i = choose|i: int| 0 <= i < keys.len() && keys[i] == k;
                assert(s[i].0 == k);
            }
            assert forall|k: u32| self@.dom().contains(k) implies keys.to_set().contains(k) by {
                let i = choose|i: int| 0 <= i < s.len() && s[i].0 == k;
                assert(keys[i] == k);
            }
        }
        keys.unique_seq_to_set();
    }

    /// A map without entries is empty and well formed, and the other way round.
    pub proof fn lemma_empty(&self)
        ensures
            (self.entries().len() == 0) == (self@ == Map::<u32, EntityId>::empty()),
            self.entries().len() == 0 ==> self.wf(),
    {
        if self.entries().len() == 0 {
            assert(self@ =~= Map::<u32, EntityId>::empty());
        } else {
            assert(self@.contains_key(self.entries()[0].0));
        }
    }

    /// An empty map.
    pub fn new() -> (r: MuscleMap)
        ensures
            r.wf(),
            r@ == Map::<u32, EntityId>::empty(),
            r.entries().len() == 0,
    {
        let r = MuscleMap { entries: Vec::new() };
        assert(r@ =~= Map::<u32, EntityId>::empty());
        r
    }

    /// Number of entries.
    pub fn len(&self) -> (r: usize)
        ensures
            r == self.entries().len(),
    {
        self.entries.len()
    }

    /// The entry at position `i`.
    pub fn entry(&self, i: usize) -> (r: (u32, EntityId))
        requires
            i < self.entries().len(),
        ensures
            r == self.entries()[i as int],
    {
        self.entries[i]
    }

    /// Position of the entry with key `k`, if there is one.
    fn position(&self, k: u32) -> (r: Option<usize>)
        requires
            self.wf(),
        ensures
            r.is_some() ==> r.unwrap() < self.entries().len() && self.entries()[r.unwrap() as int].0
                == k,
            r.is_none() ==> !self@.contains_key(k),
    {
        let mut i: usize = 0;
        while i < self.entries.len()
            invariant
                i <= self.entries@.len(),
                forall|j: int| 0 <= j < i ==> self.entries@[j].0 != k,
            decreases self.entries@.len() - i,
        {
            if self.entries[i].0 == k {
                return Some(i);
            }
            i = i + 1;
        }
        None
    }

    /// Whether `k` is a key.
    pub fn contains_key(&self, k: u32) -> (r: bool)
        requires
            self.wf(),
        ensures
            r == self@.contains_key(k),
    {
        proof {
            self.lemma_view();
        }
        self.position(k).is_some()
    }

    /// The handle stored under `k`, if any.
    pub fn get(&self, k: u32) -> (r: Option<EntityId>)
        requires
            self.wf(),
        ensures
            self@.contains_key(k) ==> r == Some(self@[k]),
            !self@.contains_key(k) ==> r.is_none(),
    {
        proof {
            self.lemma_view();
        }
        match self.position(k) {
            Some(i) => Some(self.entries[i].1),
            None => None,
        }
    }

    /// Stores `v` under `k`, in place of what was stored there.
    pub fn insert(&mut self, k: u32, v: EntityId)
        requires
            old(self).wf(),
        ensures
            final(self).wf(),
            final(self)@ == old(self)@.insert(k, v),
    {
        proof {
            self.lemma_view();
        }
        match self.position(k) {
            Some(i) => {
                self.entries.set(i, (k, v));
                proof {
                    let s = self.entries@;
                    let o = old(self).entries@;
                    assert forall|a: int, b: int|
                        0 <= a < s.len() && 0 <= b < s.len() && s[a].0 == s[b].0 implies a
                        == b by {
                        assert(s[a].0 == o[a].0 && s[b].0 == o[b].0);
                    }
                    self.lemma_view();
                    assert(self@ =~= old(self)@.insert(k, v)) by {
                        assert forall|q: u32| #[trigger] self@.contains_key(q) == old(
                            self,
                        )@.insert(k, v).contains_key(q) by {
                            if self@.contains_key(q) {
                                let j = choose|j: int| 0 <= j < s.len() && s[j].0 == q;
                                assert(o[j].0 == q);
                            }
                            if old(self)@.contains_key(q) {
                                let j = choose|j: int| 0 <= j < o.len() && o[j].0 == q;
                                assert(s[j].0 == q);
                            }
                        }
                        assert forall|q: u32| #[trigger] self@.contains_key(q) implies self@[q]
                            == old(self)@.insert(k, v)[q] by {
                            let j = choose|j: int| 0 <= j < s.len() && s[j].0 == q;
                            assert(o[j].0 == q);
                        }
                    }
                }
            },
            None => {
                self.entries.push((k, v));
                proof {
                    let s = self.entries@;
                    let o = old(self).entries@;
                    assert(s.len() == o.len() + 1);
                    assert forall|a: int, b: int|
                        0 <= a < s.len() && 0 <= b < s.len() && s[a].0 == s[b].0 implies a
                        == b by {
                        if a < o.len() && b == o.len() {
                            lemma_entry_in_map(o, a);
                        }
                        if b < o.len() && a == o.len() {
                            lemma_entry_in_map(o, b);
                        }
                    }
                    self.lemma_view();
                    assert(self@ =~= old(self)@.insert(k, v)) by {
                        assert forall|q: u32| #[trigger] self@.contains_key(q) == old(
                            self,
                        )@.insert(k, v).contains_key(q) by {
                            if self@.contains_key(q) && q != k {
                                let j = choose|j: int| 0 <= j < s.len() && s[j].0 == q;
                                assert(j < o.len());
                                assert(o[j].0 == q);
                            }
                            if old(self)@.contains_key(q) {
                                let j = choose|j: int| 0 <= j < o.len() && o[j].0 == q;
                                assert(s[j].0 == q);
                            }
                            if q == k {
                                assert(s[o.len() as int].0 == k);
                            }
                        }
                        assert forall|q: u32| #[trigger] self@.contains_key(q) implies self@[q]
                            == old(self)@.insert(k, v)[q] by {
                            let j = choose|j: int| 0 <= j < s.len() && s[j].0 == q;
                            if j < o.len() {
                                assert(o[j].0 == q);
                                lemma_entry_in_map(o, j);
                            }
                        }
                    }
                }
            },
        }
    }

    /// Takes out the entry under `k`, if any, and hands back its handle.
    pub fn remove(&mut self, k: u32) -> (r: Option<EntityId>)
        requires
            old(self).wf(),
        ensures
            final(self).wf(),
            final(self)@ == old(self)@.remove(k),
            old(self)@.contains_key(k) ==> r == Some(old(self)@[k]),
            !old(self)@.contains_key(k) ==> r.is_none(),
    {
        proof {
            self.lemma_view();
        }
        match self.position(k) {
            Some(i) => {
                let (_, v) = self.entries.remove(i);
                proof {
                    let s = self.entries@;
                    let o = old(self).entries@;
                    assert(s.len() == o.len() - 1);
                    assert forall|j: int| 0 <= j < s.len() implies #[trigger] s[j] == (if j < i {
                        o[j]
                    } else {
                        o[j + 1]
                    }) by {}
                    assert forall|a: int, b: int|
                        0 <= a < s.len() && 0 <= b < s.len() && s[a].0 == s[b].0 implies a
                        == b by {
                        let a2 = if a < i {
                            a
                        } else {
                            a + 1
                        };
                        let b2 = if b < i {
                            b
                        } else {
                            b + 1
                        };
                        assert(s[a] == o[a2] && s[b] == o[b2]);
                    }
                    lemma_entry_in_map(o, i as int);
                    self.lemma_view();
                    assert(self@ =~= old(self)@.remove(k)) by {
                        assert forall|q: u32| #[trigger] self@.contains_key(q) == old(
                            self,
                        )@.remove(k).contains_key(q) by {
                            if self@.contains_key(q) {
                                let j = choose|j: int| 0 <= j < s.len() && s[j].0 == q;
                                let j2 = if j < i {
                                    j
                                } else {
                                    j + 1
                                };
                                assert(s[j] == o[j2]);
                                assert(o[j2].0 == q);
                                assert(j2 != i);
                            }
                            if old(self)@.contains_key(q) && q != k {
                                let j = choose|j: int| 0 <= j < o.len() && o[j].0 == q;
                                assert(j != i);
                                let j2 = if j < i {
                                    j
                                } else {
                                    j - 1
                                };
                                assert(s[j2] == o[j]);
                            }
                        }
                        assert forall|q: u32| #[trigger] self@.contains_key(q) implies self@[q]
                            == old(self)@.remove(k)[q] by {
                            let j = choose|j: int| 0 <= j < s.len() && s[j].0 == q;
                            let j2 = if j < i {
                                j
                            } else {
                                j + 1
                            };
                            assert(s[j] == o[j2]);
                            lemma_entry_in_map(o, j2);
                        }
                    }
                }
                Some(v)
            },
            None => {
                proof {
                    assert(self@ =~= old(self)@.remove(k));
                }
                None
            },
        }
    }

    /// The keys, in order of insertion.
    pub fn keys(&self) -> (r: Vec<u32>)
        requires
            self.wf(),
        ensures
            r@ == self.key_seq(),
            r@.no_duplicates(),
            r@.to_set() == self@.dom(),
    {
        let mut r: Vec<u32> = Vec::new();
        let mut i: usize = 0;
        while i < self.entries.len()
            invariant
                i <= self.entries@.len(),
                r@ == self.entries@.subrange(0, i as int).map_values(|p: (u32, EntityId)| p.0),
            decreases self.entries@.len() - i,
        {
            r.push(self.entries[i].0);
            i = i + 1;
            proof {
                assert(r@ =~= self.entries@.subrange(0, i as int).map_values(
                    |p: (u32, EntityId)| p.0,
                ));
            }
        }
        proof {
            assert(self.entries@.subrange(0, i as int) =~= self.entries@);
            self.lemma_view();
            let s = self.entries@;
            assert forall|a: int, b: int| 0 <= a < r@.len() && 0 <= b < r@.len() && a != b implies r@[a]
                != r@[b] by {
                assert(s[a].0 == r@[a] && s[b].0 == r@[b]);
            }
            assert(r@.to_set() =~= self@.dom()) by {
                assert forall|k: u32| r@.to_set().contains(k) implies self@.dom().contains(k) by {
                    let j = choose|j: int| 0 <= j < r@.len() && r@[j] == k;
                    assert(s[j].0 == k);
                }
                assert forall|k: u32| self@.dom().contains(k) implies r@.to_set().contains(k) by {
                    let j = choose|j: int| 0 <= j < s.len() && s[j].0 == k;
                    assert(r@[j] == k);
                }
            }
        }
        r
    }
}

/// Edge weight of the structure graph: a connector.
#[derive(Clone, Debug)]
pub struct Connection {
    /// Handle of the connector's entity, once it is spawned.
    pub entityid: Option<EntityId>,
    /// Muscles anchored on this connector, by the edge at their other end.
    pub muscles: MuscleMap,
    /// The other ends of this connector's muscles, as they are saved.
    pub muscle_data: Vec<u32>,
}

impl Connection {
    /// A connector without muscles.
    pub fn new(entityid: Option<EntityId>) -> (r: Connection)
        ensures
            r.entityid == entityid,
            r.muscles.wf(),
            r.muscles@ == Map::<u32, EntityId>::empty(),
            r.muscle_data@ == Seq::<u32>::empty(),
    {
        Connection { entityid, muscles: MuscleMap::new(), muscle_data: Vec::new() }
    }
}

} // verus!
