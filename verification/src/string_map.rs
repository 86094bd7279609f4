//! Maps keyed by text, kept in dictionary order of the keys.
use crate::assoc::{
    distinct_keys, has_key, lemma_pairs_at, lemma_pairs_insert, lemma_pairs_len, lemma_pairs_remove,
    lemma_pairs_update, pairs_map,
};
use crate::duplicate::Duplicate;
use crate::order::{lemma_text_order, standing, text_lt, Standing};
use vstd::prelude::*;
use vstd::string::*;

verus! {

/// The keys stand in dictionary order, none twice.
pub open spec fn in_text_order<V>(s: Seq<(String, V)>) -> bool {
    forall|i: int, j: int|
        0 <= i < j < s.len() ==> text_lt((#[trigger] s[i]).0@, (#[trigger] s[j]).0@)
}

/// A map from texts to values. Its keys can be walked by position, in
/// dictionary order.
#[derive(Debug)]
pub struct StringMap<V> {
    entries: Vec<(String, V)>,
}

impl<V> StringMap<V> {
    #[verifier::type_invariant]
    spec fn ordered(self) -> bool {
        in_text_order(self.entries@)
    }
}

impl<V: View> View for StringMap<V> {
    type V = Map<Seq<char>, V::V>;

    closed spec fn view(&self) -> Map<Seq<char>, V::V> {
        pairs_map(self.pairs())
    }
}

impl<V: View> StringMap<V> {
    /// The entries in dictionary order of their keys.
    pub closed spec fn pairs(&self) -> Seq<(Seq<char>, V::V)> {
        Seq::new(self.entries@.len(), |i: int| (self.entries@[i].0@, self.entries@[i].1@))
    }

    /// The key at a position.
    pub open spec fn key(&self, i: int) -> Seq<char> {
        self.pairs()[i].0
    }

    proof fn lemma_distinct(&self)
        requires
            in_text_order(self.entries@),
        ensures
            distinct_keys(self.pairs()),
    {
        assert forall|i: int, j: int| 0 <= i < j < self.pairs().len() implies (
        #[trigger] self.pairs()[i]).0 != (#[trigger] self.pairs()[j]).0 by {
            assert(text_lt(self.entries@[i].0@, self.entries@[j].0@));
            lemma_text_order(self.entries@[i].0@, self.entries@[j].0@, self.entries@[i].0@);
        }
    }

    /// The empty map.
    pub fn new() -> (r: Self)
        ensures
            r@ == Map::<Seq<char>, V::V>::empty(),
            r.pairs().len() == 0,
    {
        let r = StringMap { entries: Vec::new() };
        proof {
            assert(r.pairs() =~= Seq::empty());
            assert(r@ =~= Map::<Seq<char>, V::V>::empty());
        }
        r
    }

    /// The number of entries.
    pub fn len(&self) -> (r: usize)
        ensures
            r == self.pairs().len(),
            r == self@.dom().len(),
            self@.dom().finite(),
            self@ == pairs_map(self.pairs()),
            distinct_keys(self.pairs()),
            forall|i: int, j: int|
                0 <= i < j < self.pairs().len() ==> text_lt(
                    (#[trigger] self.pairs()[i]).0,
                    (#[trigger] self.pairs()[j]).0,
                ),
    {
        proof {
            use_type_invariant(self);
            self.lemma_distinct();
            lemma_pairs_len(self.pairs());
            assert forall|i: int, j: int| 0 <= i < j < self.pairs().len() implies text_lt(
                (#[trigger] self.pairs()[i]).0,
                (#[trigger] self.pairs()[j]).0,
            ) by {
                assert(text_lt(self.entries@[i].0@, self.entries@[j].0@));
            }
        }
        self.entries.len()
    }

    /// Whether there is no entry.
    pub fn is_empty(&self) -> (r: bool)
        ensures
            r == (self.pairs().len() == 0),
            r == (self@ == Map::<Seq<char>, V::V>::empty()),
    {
        proof {
            use_type_invariant(self);
            self.lemma_distinct();
            lemma_pairs_len(self.pairs());
            if self.pairs().len() == 0 {
                assert(self@ =~= Map::<Seq<char>, V::V>::empty());
            } else {
                lemma_pairs_at(self.pairs(), 0);
            }
        }
        self.entries.len() == 0
    }

    /// The key at a position.
    pub fn key_at(&self, i: usize) -> (r: &String)
        requires
            i < self.pairs().len(),
        ensures
            r@ == self.key(i as int),
            self@.contains_key(r@),
    {
        proof {
            use_type_invariant(self);
            self.lemma_distinct();
            lemma_pairs_at(self.pairs(), i as int);
        }
        &self.entries[i].0
    }

    /// The value at a position.
    pub fn value_at(&self, i: usize) -> (r: &V)
        requires
            i < self.pairs().len(),
        ensures
            r@ == self.pairs()[i as int].1,
            self@.contains_key(self.key(i as int)),
            r@ == self@[self.key(i as int)],
    {
        proof {
            use_type_invariant(self);
            self.lemma_distinct();
            lemma_pairs_at(self.pairs(), i as int);
        }
        &self.entries[i].1
    }

    /// Where `k` stands, or where it would stand.
    fn position(&self, k: &str) -> (r: (usize, bool))
        ensures
            r.0 <= self.entries@.len(),
            r.1 ==> r.0 < self.entries@.len() && self.entries@[r.0 as int].0@ == k@,
            forall|i: int| 0 <= i < r.0 ==> text_lt((#[trigger] self.entries@[i]).0@, k@),
            !r.1 ==> forall|i: int|
                r.0 <= i < self.entries@.len() ==> text_lt(k@, (#[trigger] self.entries@[i]).0@),
    {
        proof {
            use_type_invariant(self);
        }
        let mut lo: usize = 0;
        let mut hi: usize = self.entries.len();
        while lo < hi
            invariant
                in_text_order(self.entries@),
                lo <= hi <= self.entries@.len(),
                forall|i: int| 0 <= i < lo ==> text_lt((#[trigger] self.entries@[i]).0@, k@),
                forall|i: int|
                    hi <= i < self.entries@.len() ==> text_lt(k@, (#[trigger] self.entries@[i]).0@),
            decreases hi - lo,
        {
            let mid: usize = lo + (hi - lo) / 2;
            let s = standing(self.entries[mid].0.as_str(), k);
            match s {
                Standing::Same => {
                    proof {
                        assert forall|i: int| 0 <= i < mid implies text_lt(
                            (#[trigger] self.entries@[i]).0@,
                            k@,
                        ) by {
                            assert(text_lt(self.entries@[i].0@, self.entries@[mid as int].0@));
                        }
                    }
                    return (mid, true);
                },
                Standing::Before => {
                    proof {
                        assert forall|i: int| 0 <= i <= mid implies text_lt(
                            (#[trigger] self.entries@[i]).0@,
                            k@,
                        ) by {
                            if i < mid {
                                assert(text_lt(self.entries@[i].0@, self.entries@[mid as int].0@));
                                lemma_text_order(
                                    self.entries@[i].0@,
                                    self.entries@[mid as int].0@,
                                    k@,
                                );
                            }
                        }
                    }
                    lo = mid + 1;
                },
                Standing::After => {
                    proof {
                        assert forall|i: int| mid <= i < self.entries@.len() implies text_lt(
                            k@,
                            (#[trigger] self.entries@[i]).0@,
                        ) by {
                            if i > mid {
                                assert(text_lt(self.entries@[mid as int].0@, self.entries@[i].0@));
                                lemma_text_order(
                                    k@,
                                    self.entries@[mid as int].0@,
                                    self.entries@[i].0@,
                                );
                            }
                        }
                    }
                    hi = mid;
                },
            }
        }
        (lo, false)
    }

    /// Leaves the map empty and hands out its entries.
    fn take_entries(&mut self) -> (r: Vec<(String, V)>)
        ensures
            r@ == old(self).entries@,
    {
        let mut rest = StringMap { entries: Vec::new() };
        std::mem::swap(self, &mut rest);
        rest.entries
    }

    proof fn lemma_absent(&self, at: int, k: Seq<char>)
        requires
            0 <= at <= self.entries@.len(),
            forall|i: int| 0 <= i < at ==> text_lt((#[trigger] self.entries@[i]).0@, k),
            forall|i: int|
                at <= i < self.entries@.len() ==> text_lt(k, (#[trigger] self.entries@[i]).0@),
        ensures
            !has_key(self.pairs(), k),
    {
        assert forall|i: int| 0 <= i < self.pairs().len() implies (#[trigger] self.pairs()[i]).0
            != k by {
            assert(self.pairs()[i].0 == self.entries@[i].0@);
            lemma_text_order(self.entries@[i].0@, k, k);
            lemma_text_order(k, self.entries@[i].0@, k);
        }
    }

    /// The value under a key.
    pub fn get(&self, k: &str) -> (r: Option<&V>)
        ensures
            r is Some <==> self@.contains_key(k@),
            r matches Some(v) ==> v@ == self@[k@],
    {
        proof {
            use_type_invariant(self);
            self.lemma_distinct();
        }
        let (at, found) = self.position(k);
        if found {
            proof {
                lemma_pairs_at(self.pairs(), at as int);
            }
            Some(&self.entries[at].1)
        } else {
            proof {
                self.lemma_absent(at as int, k@);
            }
            None
        }
    }

    /// Whether the map holds a key.
    pub fn contains_key(&self, k: &str) -> (r: bool)
        ensures
            r == self@.contains_key(k@),
    {
        self.get(k).is_some()
    }

    /// Puts a value under a key, in place of what stood there.
    pub fn insert(&mut self, k: String, v: V)
        ensures
            final(self)@ == old(self)@.insert(k@, v@),
    {
        proof {
            use_type_invariant(&*self);
            self.lemma_distinct();
        }
        let ghost before = self.pairs();
        let ghost ents = self.entries@;
        let (at, found) = self.position(k.as_str());
        if found {
            proof {
                lemma_pairs_update(before, at as int, v@);
            }
            let mut entries = self.take_entries();
            entries.set(at, (k, v));
            proof {
                assert(in_text_order(entries@));
            }
            *self = StringMap { entries };
            proof {
                assert(self.pairs() =~= before.update(at as int, (k@, v@)));
            }
        } else {
            proof {
                self.lemma_absent(at as int, k@);
                lemma_pairs_insert(before, at as int, k@, v@);
            }
            let mut entries = self.take_entries();
            entries.insert(at, (k, v));
            proof {
                assert(entries@ =~= ents.insert(at as int, (k, v)));
                assert(in_text_order(entries@));
            }
            *self = StringMap { entries };
            proof {
                assert(self.pairs() =~= before.insert(at as int, (k@, v@)));
            }
        }
    }

    /// Takes out the entry under a key.
    pub fn remove(&mut self, k: &str) -> (r: Option<V>)
        ensures
            final(self)@ == old(self)@.remove(k@),
            r is Some <==> old(self)@.contains_key(k@),
            r matches Some(v) ==> v@ == old(self)@[k@],
    {
        proof {
            use_type_invariant(&*self);
            self.lemma_distinct();
        }
        let ghost before = self.pairs();
        let (at, found) = self.position(k);
        if found {
            proof {
                lemma_pairs_remove(before, at as int);
                lemma_pairs_at(before, at as int);
            }
            let mut entries = self.take_entries();
            let e = entries.remove(at);
            proof {
                assert(in_text_order(entries@));
            }
            *self = StringMap { entries };
            proof {
                assert(self.pairs() =~= before.remove(at as int));
            }
            Some(e.1)
        } else {
            proof {
                self.lemma_absent(at as int, k@);
                assert(self@ =~= self@.remove(k@));
            }
            None
        }
    }

    /// Takes out the entry at a position.
    pub fn remove_at(&mut self, i: usize) -> (r: (String, V))
        requires
            i < old(self).pairs().len(),
        ensures
            (r.0@, r.1@) == old(self).pairs()[i as int],
            final(self).pairs() == old(self).pairs().remove(i as int),
            final(self)@ == old(self)@.remove(r.0@),
            final(self)@ == pairs_map(final(self).pairs()),
            distinct_keys(final(self).pairs()),
    {
        proof {
            use_type_invariant(&*self);
            self.lemma_distinct();
            lemma_pairs_remove(self.pairs(), i as int);
        }
        let ghost before = self.pairs();
        let mut entries = self.take_entries();
        let e = entries.remove(i);
        proof {
            assert(in_text_order(entries@));
        }
        *self = StringMap { entries };
        proof {
            assert(self.pairs() =~= before.remove(i as int));
        }
        e
    }

    /// Turns the map into its entries, in dictionary order of the keys.
    pub fn into_entries(self) -> (r: Vec<(String, V)>)
        ensures
            in_text_order(r@),
            r@.len() == self.pairs().len(),
            forall|i: int|
                0 <= i < r@.len() ==> ((#[trigger] r@[i]).0@, r@[i].1@) == self.pairs()[i],
            self@ == pairs_map(self.pairs()),
            distinct_keys(self.pairs()),
    {
        proof {
            use_type_invariant(&self);
            self.lemma_distinct();
        }
        self.entries
    }
}

impl<V: Duplicate> Duplicate for StringMap<V> {
    fn duplicate(&self) -> (r: Self) {
        proof {
            use_type_invariant(self);
        }
        let mut out: Vec<(String, V)> = Vec::new();
        let mut i: usize = 0;
        while i < self.entries.len()
            invariant
                i <= self.entries@.len(),
                out@.len() == i,
                forall|k: int|
                    0 <= k < i ==> (#[trigger] out@[k]).0@ == self.entries@[k].0@ && out@[k].1@
                        == self.entries@[k].1@,
            decreases self.entries.len() - i,
        {
            out.push((self.entries[i].0.clone(), self.entries[i].1.duplicate()));
            i = i + 1;
        }
        proof {
            assert forall|a: int, b: int| 0 <= a < b < out@.len() implies text_lt(
                (#[trigger] out@[a]).0@,
                (#[trigger] out@[b]).0@,
            ) by {
                assert(text_lt(self.entries@[a].0@, self.entries@[b].0@));
            }
        }
        let r = StringMap { entries: out };
        proof {
            assert(r.pairs() =~= self.pairs());
        }
        r
    }
}

impl<V: Duplicate> Clone for StringMap<V> {
    fn clone(&self) -> (r: Self)
        ensures
            r@ == self@,
    {
        self.duplicate()
    }
}

} // verus!
