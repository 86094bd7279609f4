//! Maps keyed by chunk id, kept in increasing order of the ids.
use crate::assoc::{
    distinct_keys, has_key, lemma_pairs_at, lemma_pairs_insert, lemma_pairs_len, lemma_pairs_remove,
    lemma_pairs_update, pairs_map,
};
use crate::duplicate::Duplicate;
use vstd::prelude::*;

verus! {

/// The ids increase, none occurs twice.
pub open spec fn in_id_order<V>(s: Seq<(u64, V)>) -> bool {
    forall|i: int, j: int| 0 <= i < j < s.len() ==> (#[trigger] s[i]).0 < (#[trigger] s[j]).0
}

/// A map from chunk ids to values. Its entries can be walked by position, in
/// increasing order of the ids.
#[derive(Debug)]
pub struct IdMap<V> {
    entries: Vec<(u64, V)>,
}

impl<V> IdMap<V> {
    #[verifier::type_invariant]
    spec fn ordered(self) -> bool {
        in_id_order(self.entries@)
    }
}

impl<V: View> View for IdMap<V> {
    type V = Map<u64, V::V>;

    closed spec fn view(&self) -> Map<u64, V::V> {
        pairs_map(self.pairs())
    }
}

impl<V: View> IdMap<V> {
    /// The entries in increasing order of their ids.
    pub closed spec fn pairs(&self) -> Seq<(u64, V::V)> {
        Seq::new(self.entries@.len(), |i: int| (self.entries@[i].0, self.entries@[i].1@))
    }

    proof fn lemma_distinct(&self)
        requires
            in_id_order(self.entries@),
        ensures
            distinct_keys(self.pairs()),
            in_id_order(self.pairs()),
    {
        assert forall|i: int, j: int| 0 <= i < j < self.pairs().len() implies (
        #[trigger] self.pairs()[i]).0 < (#[trigger] self.pairs()[j]).0 by {
            assert(self.entries@[i].0 < self.entries@[j].0);
        }
    }

    /// The empty map.
    pub fn new() -> (r: Self)
        ensures
            r@ == Map::<u64, V::V>::empty(),
            r.pairs().len() == 0,
    {
        let r = IdMap { entries: Vec::new() };
        proof {
            assert(r.pairs() =~= Seq::empty());
            assert(r@ =~= Map::<u64, V::V>::empty());
        }
        r
    }

    /// The number of entries.
    pub fn len(&self) -> (r: usize)
        ensures
            r == self.pairs().len(),
            r == self@.dom().len(),
            self@.dom().finite(),
            self@ == pairs_map(self.pairs()),
            distinct_keys(self.pairs()),
            in_id_order(self.pairs()),
    {
        proof {
            use_type_invariant(self);
            self.lemma_distinct();
            lemma_pairs_len(self.pairs());
        }
        self.entries.len()
    }

    /// Whether there is no entry.
    pub fn is_empty(&self) -> (r: bool)
        ensures
            r == (self.pairs().len() == 0),
            r == (self@ == Map::<u64, V::V>::empty()),
    {
        proof {
            use_type_invariant(self);
            self.lemma_distinct();
            if self.pairs().len() == 0 {
                assert(self@ =~= Map::<u64, V::V>::empty());
            } else {
                lemma_pairs_at(self.pairs(), 0);
            }
        }
        self.entries.len() == 0
    }

    /// The id at a position.
    pub fn key_at(&self, i: usize) -> (r: u64)
        requires
            i < self.pairs().len(),
        ensures
            r == self.pairs()[i as int].0,
            self@.contains_key(r),
    {
        proof {
            use_type_invariant(self);
            self.lemma_distinct();
            lemma_pairs_at(self.pairs(), i as int);
        }
        self.entries[i].0
    }

    /// The value at a position.
    pub fn value_at(&self, i: usize) -> (r: &V)
        requires
            i < self.pairs().len(),
        ensures
            r@ == self.pairs()[i as int].1,
            self@.contains_key(self.pairs()[i as int].0),
            r@ == self@[self.pairs()[i as int].0],
    {
        proof {
            use_type_invariant(self);
            self.lemma_distinct();
            lemma_pairs_at(self.pairs(), i as int);
        }
        &self.entries[i].1
    }

    /// Where `k` stands, or where it would stand.
    fn position(&self, k: u64) -> (r: (usize, bool))
        ensures
            r.0 <= self.entries@.len(),
            r.1 ==> r.0 < self.entries@.len() && self.entries@[r.0 as int].0 == k,
            forall|i: int| 0 <= i < r.0 ==> (#[trigger] self.entries@[i]).0 < k,
            !r.1 ==> forall|i: int|
                r.0 <= i < self.entries@.len() ==> k < (#[trigger] self.entries@[i]).0,
    {
        proof {
            use_type_invariant(self);
        }
        let mut lo: usize = 0;
        let mut hi: usize = self.entries.len();
        while lo < hi
            invariant
                in_id_order(self.entries@),
                lo <= hi <= self.entries@.len(),
                forall|i: int| 0 <= i < lo ==> (#[trigger] self.entries@[i]).0 < k,
                forall|i: int|
                    hi <= i < self.entries@.len() ==> k < (#[trigger] self.entries@[i]).0,
            decreases hi - lo,
        {
            let mid: usize = lo + (hi - lo) / 2;
            let at: u64 = self.entries[mid].0;
            if at == k {
                return (mid, true);
            } else if at < k {
                lo = mid + 1;
            } else {
                hi = mid;
            }
        }
        (lo, false)
    }

    /// Leaves the map empty and hands out its entries.
    fn take_entries(&mut self) -> (r: Vec<(u64, V)>)
        ensures
            r@ == old(self).entries@,
    {
        let mut rest = IdMap { entries: Vec::new() };
        std::mem::swap(self, &mut rest);
        rest.entries
    }

    proof fn lemma_absent(&self, at: int, k: u64)
        requires
            0 <= at <= self.entries@.len(),
            forall|i: int| 0 <= i < at ==> (#[trigger] self.entries@[i]).0 < k,
            forall|i: int|
                at <= i < self.entries@.len() ==> k < (#[trigger] self.entries@[i]).0,
        ensures
            !has_key(self.pairs(), k),
    {
        assert forall|i: int| 0 <= i < self.pairs().len() implies (#[trigger] self.pairs()[i]).0
            != k by {
            assert(self.pairs()[i].0 == self.entries@[i].0);
        }
    }

    /// The value under an id.
    pub fn get(&self, k: u64) -> (r: Option<&V>)
        ensures
            r is Some <==> self@.contains_key(k),
            r matches Some(v) ==> v@ == self@[k],
    {
        proof {
            use_type_invariant(self);
            self.lemma_distinct();
        }
        let (at, found) = self.position(k);
        if found {
            proof {
                lemma_pairs_at(self.pairs(), at as int);
            }
            Some(&self.entries[at].1)
        } else {
            proof {
                self.lemma_absent(at as int, k);
            }
            None
        }
    }

    /// Whether the map holds an id.
    pub fn contains_key(&self, k: u64) -> (r: bool)
        ensures
            r == self@.contains_key(k),
    {
        self.get(k).is_some()
    }

    /// Puts a value under an id, in place of what stood there.
    pub fn insert(&mut self, k: u64, v: V)
        ensures
            final(self)@ == old(self)@.insert(k, v@),
    {
        proof {
            use_type_invariant(&*self);
            self.lemma_distinct();
        }
        let ghost before = self.pairs();
        let ghost ents = self.entries@;
        let (at, found) = self.position(k);
        if found {
            proof {
                lemma_pairs_update(before, at as int, v@);
            }
            let mut entries = self.take_entries();
            entries.set(at, (k, v));
            proof {
                assert(in_id_order(entries@));
            }
            *self = IdMap { entries };
            proof {
                assert(self.pairs() =~= before.update(at as int, (k, v@)));
            }
        } else {
            proof {
                self.lemma_absent(at as int, k);
                lemma_pairs_insert(before, at as int, k, v@);
            }
            let mut entries = self.take_entries();
            entries.insert(at, (k, v));
            proof {
                assert(entries@ =~= ents.insert(at as int, (k, v)));
                assert(in_id_order(entries@));
            }
            *self = IdMap { entries };
            proof {
                assert(self.pairs() =~= before.insert(at as int, (k, v@)));
            }
        }
    }

    /// Takes out the entry under an id.
    pub fn remove(&mut self, k: u64) -> (r: Option<V>)
        ensures
            final(self)@ == old(self)@.remove(k),
            r is Some <==> old(self)@.contains_key(k),
            r matches Some(v) ==> v@ == old(self)@[k],
    {
        proof {
            use_type_invariant(&*self);
            self.lemma_distinct();
        }
        let ghost before = self.pairs();
        let (at, found) = self.position(k);
        if found {
            proof {
                lemma_pairs_remove(before, at as int);
                lemma_pairs_at(before, at as int);
            }
            let mut entries = self.take_entries();
            let e = entries.remove(at);
            proof {
                assert(in_id_order(entries@));
            }
            *self = IdMap { entries };
            proof {
                assert(self.pairs() =~= before.remove(at as int));
            }
            Some(e.1)
        } else {
            proof {
                self.lemma_absent(at as int, k);
                assert(self@ =~= self@.remove(k));
            }
            None
        }
    }

    /// Turns the map into its entries, in increasing order of the ids.
    pub fn into_entries(self) -> (r: Vec<(u64, V)>)
        ensures
            r@.len() == self.pairs().len(),
            forall|i: int|
                0 <= i < r@.len() ==> ((#[trigger] r@[i]).0, r@[i].1@) == self.pairs()[i],
            self@ == pairs_map(self.pairs()),
            distinct_keys(self.pairs()),
            in_id_order(self.pairs()),
    {
        proof {
            use_type_invariant(&self);
            self.lemma_distinct();
        }
        self.entries
    }
}

impl<V: Duplicate> Duplicate for IdMap<V> {
    fn duplicate(&self) -> (r: Self) {
        proof {
            use_type_invariant(self);
        }
        let mut out: Vec<(u64, V)> = Vec::new();
        let mut i: usize = 0;
        while i < self.entries.len()
            invariant
                i <= self.entries@.len(),
                out@.len() == i,
                forall|k: int|
                    0 <= k < i ==> (#[trigger] out@[k]).0 == self.entries@[k].0 && out@[k].1@
                        == self.entries@[k].1@,
            decreases self.entries.len() - i,
        {
            out.push((self.entries[i].0, self.entries[i].1.duplicate()));
            i = i + 1;
        }
        proof {
            assert forall|a: int, b: int| 0 <= a < b < out@.len() implies (#[trigger] out@[a]).0 < (
            #[trigger] out@[b]).0 by {
                assert(self.entries@[a].0 < self.entries@[b].0);
            }
        }
        let r = IdMap { entries: out };
        proof {
            assert(r.pairs() =~= self.pairs());
        }
        r
    }
}

impl<V: Duplicate> Clone for IdMap<V> {
    fn clone(&self) -> (r: Self)
        ensures
            r@ == self@,
    {
        self.duplicate()
    }
}

} // verus!
