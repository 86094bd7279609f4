//! Sequences of pairs read as maps.
use vstd::prelude::*;

verus! {

/// No key occurs twice.
pub open spec fn distinct_keys<K, V>(s: Seq<(K, V)>) -> bool {
    forall|i: int, j: int| 0 <= i < j < s.len() ==> (#[trigger] s[i]).0 != (#[trigger] s[j]).0
}

/// Some pair has the key `k`.
pub open spec fn has_key<K, V>(s: Seq<(K, V)>, k: K) -> bool {
    exists|i: int| 0 <= i < s.len() && (#[trigger] s[i]).0 == k
}

/// The map that the pairs spell out.
pub open spec fn pairs_map<K, V>(s: Seq<(K, V)>) -> Map<K, V> {
    Map::new(
        |k: K| has_key(s, k),
        |k: K| s[choose|i: int| 0 <= i < s.len() && (#[trigger] s[i]).0 == k].1,
    )
}

/// The keys in order.
pub open spec fn pair_keys<K, V>(s: Seq<(K, V)>) -> Seq<K> {
    Seq::new(s.len(), |i: int| s[i].0)
}

/// What a map holds under a key, if anything.
pub open spec fn lookup<K, V>(m: Map<K, V>, k: K) -> Option<V> {
    if m.contains_key(k) {
        Some(m[k])
    } else {
        None
    }
}

pub proof fn lemma_pairs_at<K, V>(s: Seq<(K, V)>, i: int)
    requires
        distinct_keys(s),
        0 <= i < s.len(),
    ensures
        pairs_map(s).contains_key(s[i].0),
        pairs_map(s)[s[i].0] == s[i].1,
{
    assert(has_key(s, s[i].0));
    let j = choose|j: int| 0 <= j < s.len() && (#[trigger] s[j]).0 == s[i].0;
    assert(s[j].0 == s[i].0);
    assert(j == i);
}

pub proof fn lemma_pairs_insert<K, V>(s: Seq<(K, V)>, at: int, k: K, v: V)
    requires
        distinct_keys(s),
        0 <= at <= s.len(),
        !has_key(s, k),
    ensures
        distinct_keys(s.insert(at, (k, v))),
        pairs_map(s.insert(at, (k, v))) == pairs_map(s).insert(k, v),
{
    let t = s.insert(at, (k, v));
    assert(distinct_keys(t));
    assert(pairs_map(t) =~= pairs_map(s).insert(k, v)) by {
        lemma_pairs_at(t, at);
        let after = pairs_map(s).insert(k, v);
        assert forall|x: K|
            #![trigger pairs_map(t).dom().contains(x)]
            #![trigger after.dom().contains(x)]
            pairs_map(t).dom().contains(x) == after.dom().contains(x) && (pairs_map(
                t,
            ).dom().contains(x) ==> pairs_map(t)[x] == after[x]) by {
            if x != k {
                if has_key(s, x) {
                    let i = choose|i: int| 0 <= i < s.len() && (#[trigger] s[i]).0 == x;
                    lemma_pairs_at(s, i);
                    let j = if i < at { i } else { i + 1 };
                    assert(t[j] == s[i]);
                    lemma_pairs_at(t, j);
                }
                if has_key(t, x) {
                    let j = choose|j: int| 0 <= j < t.len() && (#[trigger] t[j]).0 == x;
                    let i = if j < at { j } else { j - 1 };
                    assert(s[i].0 == x);
                }
            }
        }
    }
}

pub proof fn lemma_pairs_remove<K, V>(s: Seq<(K, V)>, at: int)
    requires
        distinct_keys(s),
        0 <= at < s.len(),
    ensures
        distinct_keys(s.remove(at)),
        pairs_map(s.remove(at)) == pairs_map(s).remove(s[at].0),
{
    let t = s.remove(at);
    let k = s[at].0;
    assert(distinct_keys(t));
    assert(pairs_map(t) =~= pairs_map(s).remove(k)) by {
        let after = pairs_map(s).remove(k);
        assert forall|x: K|
            #![trigger pairs_map(t).dom().contains(x)]
            #![trigger after.dom().contains(x)]
            pairs_map(t).dom().contains(x) == after.dom().contains(x) && (pairs_map(
                t,
            ).dom().contains(x) ==> pairs_map(t)[x] == after[x]) by {
            if has_key(t, x) {
                let j = choose|j: int| 0 <= j < t.len() && (#[trigger] t[j]).0 == x;
                let i = if j < at { j } else { j + 1 };
                assert(s[i] == t[j]);
                lemma_pairs_at(s, i);
                lemma_pairs_at(t, j);
            }
            if x != k && has_key(s, x) {
                let i = choose|i: int| 0 <= i < s.len() && (#[trigger] s[i]).0 == x;
                let j = if i < at { i } else { i - 1 };
                assert(t[j] == s[i]);
            }
        }
    }
}

pub proof fn lemma_pairs_update<K, V>(s: Seq<(K, V)>, at: int, v: V)
    requires
        distinct_keys(s),
        0 <= at < s.len(),
    ensures
        distinct_keys(s.update(at, (s[at].0, v))),
        pairs_map(s.update(at, (s[at].0, v))) == pairs_map(s).insert(s[at].0, v),
{
    let k = s[at].0;
    let t = s.update(at, (k, v));
    assert(distinct_keys(t));
    assert(pairs_map(t) =~= pairs_map(s).insert(k, v)) by {
        lemma_pairs_at(t, at);
        let after = pairs_map(s).insert(k, v);
        assert forall|x: K|
            #![trigger pairs_map(t).dom().contains(x)]
            #![trigger after.dom().contains(x)]
            pairs_map(t).dom().contains(x) == after.dom().contains(x) && (pairs_map(
                t,
            ).dom().contains(x) ==> pairs_map(t)[x] == after[x]) by {
            if x != k {
                if has_key(s, x) {
                    let i = choose|i: int| 0 <= i < s.len() && (#[trigger] s[i]).0 == x;
                    lemma_pairs_at(s, i);
                    assert(t[i] == s[i]);
                    lemma_pairs_at(t, i);
                }
                if has_key(t, x) {
                    let j = choose|j: int| 0 <= j < t.len() && (#[trigger] t[j]).0 == x;
                    assert(s[j].0 == x);
                }
            }
        }
    }
}

pub proof fn lemma_pairs_len<K, V>(s: Seq<(K, V)>)
    requires
        distinct_keys(s),
    ensures
        pairs_map(s).dom().finite(),
        pairs_map(s).dom().len() == s.len(),
        pairs_map(s).dom() == pair_keys(s).to_set(),
{
    let ks = pair_keys(s);
    assert(ks.no_duplicates());
    ks.unique_seq_to_set();
    vstd::seq_lib::seq_to_set_is_finite(ks);
    assert(pairs_map(s).dom() =~= ks.to_set()) by {
        assert forall|k: K| pairs_map(s).dom().contains(k) == ks.to_set().contains(k) by {
            if has_key(s, k) {
                let i = choose|i: int| 0 <= i < s.len() && (#[trigger] s[i]).0 == k;
                assert(ks[i] == k);
            }
            if ks.contains(k) {
                let i = choose|i: int| 0 <= i < ks.len() && ks[i] == k;
                assert(s[i].0 == k);
            }
        }
    }
}

/// Filtering a sequence with one more element.
pub proof fn lemma_filter_push<A>(s: Seq<A>, x: A, p: spec_fn(A) -> bool)
    ensures
        s.push(x).filter(p) == if p(x) {
            s.filter(p).push(x)
        } else {
            s.filter(p)
        },
{
    reveal(Seq::filter);
    assert(s.push(x).drop_last() =~= s);
}

/// What passes a filter stays in the sequence, and nothing else.
pub proof fn lemma_filter_contains<A>(s: Seq<A>, p: spec_fn(A) -> bool, x: A)
    ensures
        s.filter(p).contains(x) <==> s.contains(x) && p(x),
    decreases s.len(),
{
    reveal(Seq::filter);
    if s.len() > 0 {
        let init = s.drop_last();
        let last = s.last();
        lemma_filter_contains(init, p, x);
        assert(s =~= init.push(last));
        assert(s.contains(x) <==> init.contains(x) || x == last) by {
            if init.contains(x) {
                let i = choose|i: int| 0 <= i < init.len() && init[i] == x;
                assert(s[i] == x);
            }
            if x == last {
                assert(s[s.len() - 1] == x);
            }
        }
        let f = init.filter(p);
        if p(last) {
            assert(f.push(last).contains(x) <==> f.contains(x) || x == last) by {
                if f.contains(x) {
                    let i = choose|i: int| 0 <= i < f.len() && f[i] == x;
                    assert(f.push(last)[i] == x);
                }
                if x == last {
                    assert(f.push(last)[f.len() as int] == x);
                }
            }
        }
    }
}

/// A lookup finds what is stored under the key, and nothing where nothing is.
pub proof fn law_lookup_finds_what_is_stored<K, V>(m: Map<K, V>, k: K, v: V)
    ensures
        lookup(m.insert(k, v), k) == Some(v),
        lookup(m.remove(k), k) is None,
        lookup(m, k) == Some(v) ==> m.contains_key(k) && m[k] == v,
        lookup(m, k) is None ==> !m.contains_key(k),
{
}

/// The map of a list of pairs has exactly the keys of the list, each with the value that
/// stands beside it.
pub proof fn law_pairs_spell_the_map<K, V>(s: Seq<(K, V)>, k: K)
    requires
        distinct_keys(s),
    ensures
        pairs_map(s).contains_key(k) <==> exists|i: int| 0 <= i < s.len() && (#[trigger] s[i]).0 == k,
        forall|i: int| 0 <= i < s.len() && (#[trigger] s[i]).0 == k ==> pairs_map(s)[k] == s[i].1,
        pair_keys(s).len() == s.len(),
        forall|i: int| 0 <= i < s.len() ==> #[trigger] pair_keys(s)[i] == s[i].0,
{
    assert forall|i: int| 0 <= i < s.len() && (#[trigger] s[i]).0 == k implies pairs_map(s)[k]
        == s[i].1 by {
        lemma_pairs_at(s, i);
    }
}

} // verus!
