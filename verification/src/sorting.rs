//! Stable sorting by rank.
use vstd::prelude::*;

verus! {

/// The entries of a rank.
pub open spec fn of_rank<T>(k: i128) -> spec_fn((i128, T)) -> bool {
    |e: (i128, T)| e.0 == k
}

/// The ranks do not fall.
pub open spec fn ranks_rise<T>(s: Seq<(i128, T)>) -> bool {
    forall|i: int, j: int| 0 <= i < j < s.len() ==> (#[trigger] s[i]).0 <= (#[trigger] s[j]).0
}

/// `t` is `s` sorted by rank; entries of one rank keep their order.
pub open spec fn sorted_form<T>(s: Seq<(i128, T)>, t: Seq<(i128, T)>) -> bool {
    &&& ranks_rise(t)
    &&& t.len() == s.len()
    &&& forall|k: i128| #[trigger] t.filter(of_rank(k)) == s.filter(of_rank(k))
}

proof fn lemma_none_of_rank<T>(s: Seq<(i128, T)>, k: i128)
    requires
        forall|i: int| 0 <= i < s.len() ==> (#[trigger] s[i]).0 != k,
    ensures
        s.filter(of_rank(k)) == Seq::<(i128, T)>::empty(),
    decreases s.len(),
{
    reveal(Seq::filter);
    if s.len() > 0 {
        let init = s.drop_last();
        assert forall|i: int| 0 <= i < init.len() implies (#[trigger] init[i]).0 != k by {
            assert(init[i] == s[i]);
        }
        lemma_none_of_rank(init, k);
        assert(s[s.len() - 1].0 != k);
    }
}

proof fn lemma_insert_filter<T>(s: Seq<(i128, T)>, at: int, x: (i128, T), k: i128)
    requires
        0 <= at <= s.len(),
        forall|i: int| at <= i < s.len() ==> x.0 < (#[trigger] s[i]).0,
    ensures
        s.insert(at, x).filter(of_rank(k)) == s.push(x).filter(of_rank(k)),
{
    let p = of_rank::<T>(k);
    let a = s.subrange(0, at);
    let b = s.subrange(at, s.len() as int);
    assert(s =~= a + b);
    assert(s.insert(at, x) =~= a.push(x) + b);
    Seq::filter_distributes_over_add(a.push(x), b, p);
    Seq::filter_distributes_over_add(a, b, p);
    crate::assoc::lemma_filter_push(a, x, p);
    crate::assoc::lemma_filter_push(s, x, p);
    if k == x.0 {
        assert forall|i: int| 0 <= i < b.len() implies (#[trigger] b[i]).0 != k by {
            assert(b[i] == s[at + i]);
        }
        lemma_none_of_rank(b, k);
        assert(a.filter(p).push(x) + b.filter(p) =~= a.filter(p).push(x));
        assert(a.filter(p) + b.filter(p) =~= a.filter(p));
    }
}

/// Sorts by rank; entries of one rank keep their order.
pub fn sort_by_rank<T>(items: Vec<(i128, T)>) -> (r: Vec<(i128, T)>)
    ensures
        sorted_form(items@, r@),
        r@.to_multiset() == items@.to_multiset(),
{
    let ghost all = items@;
    let mut out: Vec<(i128, T)> = Vec::new();
    let mut done: Ghost<int> = Ghost(0);
    proof {
        assert(all.subrange(0, 0) =~= out@);
    }
    for x in it: items
        invariant
            it.seq() == all,
            done@ == it.index(),
            0 <= done@ <= all.len(),
            sorted_form(all.subrange(0, done@), out@),
            out@.to_multiset() == all.subrange(0, done@).to_multiset(),
    {
        let mut lo: usize = 0;
        let mut hi: usize = out.len();
        while lo < hi
            invariant
                lo <= hi <= out@.len(),
                ranks_rise(out@),
                forall|i: int| 0 <= i < lo ==> (#[trigger] out@[i]).0 <= x.0,
                forall|i: int| hi <= i < out@.len() ==> x.0 < (#[trigger] out@[i]).0,
            decreases hi - lo,
        {
            let mid: usize = lo + (hi - lo) / 2;
            if out[mid].0 <= x.0 {
                lo = mid + 1;
            } else {
                hi = mid;
            }
        }
        let ghost before = out@;
        let ghost shorter = all.subrange(0, done@);
        let ghost longer = all.subrange(0, done@ + 1);
        out.insert(lo, x);
        proof {
            assert(longer =~= shorter.push(x));
            assert forall|k: i128| #[trigger]
                out@.filter(of_rank(k)) == longer.filter(of_rank(k)) by {
                lemma_insert_filter(before, lo as int, x, k);
                crate::assoc::lemma_filter_push(before, x, of_rank(k));
                crate::assoc::lemma_filter_push(shorter, x, of_rank(k));
                assert(before.filter(of_rank(k)) == shorter.filter(of_rank(k)));
            }
            before.to_multiset_ensures();
            shorter.to_multiset_ensures();
            out@.to_multiset_ensures();
            assert(out@.remove(lo as int) =~= before);
            assert(out@[lo as int] == x);
            assert(out@.to_multiset() =~= before.to_multiset().insert(x));
            done@ = done@ + 1;
        }
    }
    proof {
        assert(all.subrange(0, all.len() as int) =~= all);
    }
    out
}

/// A list whose ranks rise already is its own sorted form.
pub proof fn lemma_sorted_already<T>(s: Seq<(i128, T)>, t: Seq<(i128, T)>)
    requires
        forall|i: int, j: int| 0 <= i < j < s.len() ==> (#[trigger] s[i]).0 < (#[trigger] s[j]).0,
        sorted_form(s, t),
    ensures
        t == s,
    decreases s.len(),
{
    if s.len() == 0 {
        assert(t =~= s);
    } else {
        let n = s.len() - 1;
        let k = s[n].0;
        let p = of_rank::<T>(k);
        lemma_only_last(s);
        assert(t.filter(p) == seq![s[n]]);
        crate::assoc::lemma_filter_contains(t, p, s[n]);
        assert(seq![s[n]][0] == s[n]);
        let j = choose|j: int| 0 <= j < t.len() && t[j] == s[n];
        assert(t[n] == s[n]) by {
            assert(t[n].0 >= k);
            crate::assoc::lemma_filter_contains(t, of_rank(t[n].0), t[n]);
            crate::assoc::lemma_filter_contains(s, of_rank(t[n].0), t[n]);
            let i = choose|i: int| 0 <= i < s.len() && s[i] == t[n];
            if i < n {
                assert(s[i].0 < s[n].0);
            }
        }
        let si = s.drop_last();
        let ti = t.drop_last();
        assert(t =~= ti.push(s[n]));
        assert(s =~= si.push(s[n]));
        assert forall|q: i128| #[trigger] ti.filter(of_rank(q)) == si.filter(of_rank(q)) by {
            crate::assoc::lemma_filter_push(ti, s[n], of_rank(q));
            crate::assoc::lemma_filter_push(si, s[n], of_rank(q));
            assert(t.filter(of_rank(q)) == s.filter(of_rank(q)));
            if q == k {
                assert(ti.filter(of_rank(q)) =~= ti.filter(of_rank(q)).push(s[n]).drop_last());
                assert(si.filter(of_rank(q)) =~= si.filter(of_rank(q)).push(s[n]).drop_last());
            }
        }
        lemma_sorted_already(si, ti);
    }
}

proof fn lemma_only_last<T>(s: Seq<(i128, T)>)
    requires
        s.len() > 0,
        forall|i: int, j: int| 0 <= i < j < s.len() ==> (#[trigger] s[i]).0 < (#[trigger] s[j]).0,
    ensures
        s.filter(of_rank(s.last().0)) == seq![s.last()],
{
    let init = s.drop_last();
    assert forall|i: int| 0 <= i < init.len() implies (#[trigger] init[i]).0 != s.last().0 by {
        assert(s[i].0 < s[s.len() - 1].0);
    }
    lemma_none_of_rank(init, s.last().0);
    crate::assoc::lemma_filter_push(init, s.last(), of_rank(s.last().0));
    assert(s =~= init.push(s.last()));
    assert(Seq::<(i128, T)>::empty().push(s.last()) =~= seq![s.last()]);
}

/// Sorting neither loses nor adds an entry, and no entry stands before one of a lower
/// rank.
pub proof fn law_sorting_orders_what_there_is<T>(
    s: Seq<(i128, T)>,
    t: Seq<(i128, T)>,
    e: (i128, T),
    i: int,
    j: int,
)
    requires
        sorted_form(s, t),
    ensures
        t.len() == s.len(),
        t.contains(e) <==> s.contains(e),
        0 <= i <= j < t.len() ==> t[i].0 <= t[j].0,
{
    crate::assoc::lemma_filter_contains(t, of_rank(e.0), e);
    crate::assoc::lemma_filter_contains(s, of_rank(e.0), e);
    assert(t.filter(of_rank(e.0)) == s.filter(of_rank(e.0)));
    if 0 <= i < j < t.len() {
        assert(t[i].0 <= t[j].0);
    }
}

/// Two entries of one rank, one after the other, are not exchanged by sorting.
pub proof fn law_sorting_is_stable<T>(a: (i128, T), b: (i128, T), t: Seq<(i128, T)>)
    requires
        a.0 == b.0,
        sorted_form(seq![a, b], t),
    ensures
        t == seq![a, b],
{
    let s = seq![a, b];
    let p = of_rank::<T>(a.0);
    assert forall|i: int| 0 <= i < t.len() implies p(#[trigger] t[i]) by {
        let e = t[i];
        law_sorting_orders_what_there_is(s, t, e, 0, 0);
        assert(t.contains(e));
        let k = choose|k: int| 0 <= k < s.len() && s[k] == e;
        assert(k == 0 || k == 1);
    }
    lemma_all_pass(s, p);
    lemma_all_pass(t, p);
    assert(t.filter(of_rank(a.0)) == s.filter(of_rank(a.0)));
}

proof fn lemma_all_pass<T>(s: Seq<T>, p: spec_fn(T) -> bool)
    requires
        forall|i: int| 0 <= i < s.len() ==> p(#[trigger] s[i]),
    ensures
        s.filter(p) == s,
    decreases s.len(),
{
    reveal(Seq::filter);
    if s.len() > 0 {
        let init = s.drop_last();
        assert forall|i: int| 0 <= i < init.len() implies p(#[trigger] init[i]) by {
            assert(init[i] == s[i]);
        }
        lemma_all_pass(init, p);
        assert(p(s[s.len() - 1]));
        assert(s =~= init.push(s.last()));
    } else {
        assert(s.filter(p) =~= s);
    }
}

} // verus!
