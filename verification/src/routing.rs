//! Requests on a partitioned collection: where they go, and how the outcomes of
//! the partitions add up.
use crate::assoc::lookup;
use crate::duplicate::text_views;
use crate::errors::{failed, failure, EngineError, ErrorView};
use crate::id_map::IdMap;
use crate::models::{
    ChunkRelation, DocumentChunk, ExplainPlan, FilterValue, FilterView, MetaView, SearchHit,
    SearchRequest,
};
use crate::number::{score_key, score_rank};
use crate::partitions::{
    named_values, partition_name, partition_ns, partition_value_error,
    partition_values_from_filters, routing, values_view,
};
use crate::parents::parent_metadata;
use crate::search::{
    build_hits, candidate_ids, candidate_views, first, hit_views, hits_of, keep_top, law_hits_fit,
    ScoredCandidate,
};
use crate::sorting::{sort_by_rank, sorted_form};
use crate::string_map::StringMap;
use std::collections::HashSet;
use vstd::prelude::*;
use vstd::string::*;

verus! {

/// The partitions of a collection that hold the given values.
pub open spec fn partition_names(parent: Seq<char>, values: Seq<Seq<char>>) -> Seq<Seq<char>> {
    Seq::new(values.len(), |i: int| partition_name(parent, values[i]))
}

/// The error for a request that waits on one log entry but goes to several logs.
pub open spec fn several_logs() -> ErrorView {
    failure(
        "min_seq applies to a single partition's write history; filter to one partition value when using it"@,
    )
}

/// Where a request goes: to the partitions that its filter names. One that
/// waits for a log entry may name one partition only.
pub open spec fn targets(
    parent: Seq<char>,
    field: Seq<char>,
    filters: Map<Seq<char>, FilterView>,
    waits: bool,
    r: Result<Seq<Seq<char>>, ErrorView>,
) -> bool {
    let named = named_values(lookup(filters, field));
    match r {
        Ok(names) => {
            &&& named is Some
            &&& routing(field, filters, Ok(named->0))
            &&& !(waits && named->0.len() > 1)
            &&& names == partition_names(parent, named->0)
        },
        Err(e) => {
            ||| routing(field, filters, Err(e))
            ||| waits && named is Some && named->0.len() > 1 && routing(
                field,
                filters,
                Ok(named->0),
            ) && e == several_logs()
        },
    }
}

/// The partitions that a filtered request goes to.
pub fn request_targets(
    parent: &str,
    field: &str,
    filters: &StringMap<FilterValue>,
    min_seq: Option<u64>,
) -> (r: Result<Vec<String>, EngineError>)
    ensures
        targets(parent@, field@, filters@, min_seq is Some, values_view(r)),
{
    let values = match partition_values_from_filters(field, filters) {
        Ok(v) => v,
        Err(e) => {
            return Err(e);
        },
    };
    proof {
        assert(named_values(lookup(filters@, field@)) == Some(text_views(values@)));
    }
    if min_seq.is_some() && values.len() > 1 {
        return Err(
            failed(
                "min_seq applies to a single partition's write history; filter to one partition value when using it",
            ),
        );
    }
    let mut out: Vec<String> = Vec::new();
    let mut i: usize = 0;
    while i < values.len()
        invariant
            i <= values@.len(),
            out@.len() == i,
            forall|k: int|
                0 <= k < i ==> (#[trigger] out@[k])@ == partition_name(parent@, values@[k]@),
        decreases values.len() - i,
    {
        out.push(partition_ns(parent, values[i].as_str()));
        i = i + 1;
    }
    proof {
        assert(text_views(out@) =~= partition_names(parent@, text_views(values@)));
    }
    Ok(out)
}

// ── Searches ────────────────────────────────────────────────────────────

/// The outcome of a search.
#[derive(Debug)]
pub struct SearchOutcome {
    pub hits: Vec<SearchHit>,
    pub total: usize,
    pub took_us: u64,
    pub explain: Option<ExplainPlan>,
}

/// Hits with their ranks: the higher the score, the lower the rank.
pub open spec fn by_score(s: Seq<SearchHit>) -> Seq<(i128, SearchHit)> {
    Seq::new(s.len(), |i: int| ((-score_key(s[i].score)) as i128, s[i]))
}

/// `best` are the first `top_k` hits once they are sorted by falling score, hits
/// of one score in their old order.
pub open spec fn best_hits(hits: Seq<SearchHit>, top_k: usize, best: Seq<SearchHit>) -> bool {
    exists|t: Seq<SearchHit>| #[trigger]
        sorted_form(by_score(hits), by_score(t)) && best == first(t, top_k)
}

/// The answer to a search of one collection: the hits of the candidates that it has
/// room for, their number, and the plan if it was asked for. `relations` are the
/// stored relations of the chunks among them.
pub fn answer_search(
    req: &SearchRequest,
    candidates: Vec<ScoredCandidate>,
    chunks: &IdMap<DocumentChunk>,
    relations: &IdMap<Vec<ChunkRelation>>,
    live: &HashSet<u64>,
    plan: ExplainPlan,
    took_us: u64,
) -> (r: SearchOutcome)
    ensures
        hit_views(r.hits@) == ({
            let kept = first(candidate_views(candidates@), req.top_k);
            hits_of(
                kept,
                chunks@,
                parent_metadata(candidate_ids(kept), chunks@),
                relations@,
                live@,
                req.include_relations,
            )
        }),
        r.total == first(candidate_views(candidates@), req.top_k).len(),
        r.hits@.len() <= r.total <= req.top_k,
        r.explain == (if req.explain {
            Some(plan)
        } else {
            None
        }),
        r.took_us == took_us,
{
    let ghost kept = first(candidate_views(candidates@), req.top_k);
    let candidates = keep_top(candidates, req.top_k);
    let total: usize = candidates.len();
    proof {
        assert(candidate_views(candidates@).len() == candidates@.len());
        law_hits_fit(
            kept,
            chunks@,
            parent_metadata(candidate_ids(kept), chunks@),
            relations@,
            live@,
            req.include_relations,
        );
    }
    let hits = build_hits(&candidates, chunks, relations, live, req.include_relations);
    proof {
        assert(hit_views(hits@).len() == hits@.len());
    }
    let explain = if req.explain {
        Some(plan)
    } else {
        None
    };
    SearchOutcome { hits, total, took_us, explain }
}

impl SearchOutcome {
    /// The outcome of a search that went nowhere yet.
    pub fn nothing() -> (r: SearchOutcome)
        ensures
            r.hits@.len() == 0,
            r.total == 0,
            r.took_us == 0,
            r.explain is None,
    {
        SearchOutcome { hits: Vec::new(), total: 0, took_us: 0, explain: None }
    }

    /// Adds the outcome of one partition. A partition that does not exist adds
    /// nothing; any other error ends the search. The first plan is kept.
    pub fn add(&mut self, outcome: Result<SearchOutcome, EngineError>) -> (r: Result<
        (),
        EngineError,
    >)
        requires
            outcome matches Ok(o) ==> old(self).total + o.total <= usize::MAX && old(self).took_us
                + o.took_us <= u64::MAX,
        ensures
            match outcome {
                Ok(o) => {
                    &&& r is Ok
                    &&& final(self).hits@ == old(self).hits@ + o.hits@
                    &&& final(self).total == old(self).total + o.total
                    &&& final(self).took_us == old(self).took_us + o.took_us
                    &&& final(self).explain == (if old(self).explain is Some {
                        old(self).explain
                    } else {
                        o.explain
                    })
                },
                Err(e) => {
                    &&& *final(self) == *old(self)
                    &&& r is Ok <==> e@.not_found
                    &&& r matches Err(x) ==> x == e
                },
            },
    {
        match outcome {
            Ok(o) => {
                let mut hits = o.hits;
                self.hits.append(&mut hits);
                self.total = self.total + o.total;
                self.took_us = self.took_us + o.took_us;
                if self.explain.is_none() {
                    self.explain = o.explain;
                }
                Ok(())
            },
            Err(e) => {
                if e.is_not_found() {
                    Ok(())
                } else {
                    Err(e)
                }
            },
        }
    }

    /// The outcome of the whole search: the best hits of all partitions.
    pub fn finish(self, top_k: usize) -> (r: SearchOutcome)
        ensures
            best_hits(self.hits@, top_k, r.hits@),
            r.total == self.total,
            r.took_us == self.took_us,
            r.explain == self.explain,
    {
        let ghost all = self.hits@;
        let mut ranked: Vec<(i128, SearchHit)> = Vec::new();
        let mut done: Ghost<int> = Ghost(0);
        for h in it: self.hits
            invariant
                it.seq() == all,
                done@ == it.index(),
                0 <= done@ <= all.len(),
                ranked@ == by_score(all).subrange(0, done@),
        {
            let ghost hit = h;
            let rank: i128 = -score_rank(h.score);
            ranked.push((rank, h));
            proof {
                assert(ranked@ =~= by_score(all).subrange(0, done@ + 1));
                done@ = done@ + 1;
            }
        }
        proof {
            assert(by_score(all).subrange(0, all.len() as int) =~= by_score(all));
        }
        let sorted = sort_by_rank(ranked);
        let ghost s = sorted@;
        proof {
            assert forall|i: int| 0 <= i < s.len() implies (#[trigger] s[i]).0 == -score_key(
                s[i].1.score,
            ) by {
                let p = crate::sorting::of_rank(s[i].0);
                crate::assoc::lemma_filter_contains(s, p, s[i]);
                crate::assoc::lemma_filter_contains(by_score(all), p, s[i]);
                let k = choose|k: int| 0 <= k < by_score(all).len() && by_score(all)[k] == s[i];
                assert(by_score(all)[k].0 == -score_key(all[k].score));
            }
        }
        let mut hits: Vec<SearchHit> = Vec::new();
        let mut at: Ghost<int> = Ghost(0);
        for e in it: sorted
            invariant
                it.seq() == s,
                at@ == it.index(),
                0 <= at@ <= s.len(),
                hits@.len() == at@,
                forall|i: int| 0 <= i < at@ ==> #[trigger] hits@[i] == s[i].1,
        {
            hits.push(e.1);
            proof {
                at@ = at@ + 1;
            }
        }
        let ghost t = hits@;
        proof {
            assert(by_score(t) =~= s);
        }
        hits.truncate(top_k);
        proof {
            assert(hits@ =~= first(t, top_k));
        }
        SearchOutcome {
            hits,
            total: self.total,
            took_us: self.took_us,
            explain: self.explain,
        }
    }
}

// ── Writes ──────────────────────────────────────────────────────────────

/// What the writes to the partitions of a collection add up to.
#[derive(Debug)]
pub struct RoutedWrite {
    /// The number of partitions written to.
    pub parts: usize,
    /// The chunks written.
    pub total: usize,
    /// The ids of the chunks that the caller named.
    pub client_ids: StringMap<u64>,
    /// The log entry of the last write.
    pub last_seq: Option<u64>,
}

impl RoutedWrite {
    /// A write to so many partitions.
    pub fn new(parts: usize) -> (r: RoutedWrite)
        ensures
            r.parts == parts,
            r.total == 0,
            r.client_ids@ == Map::<Seq<char>, u64>::empty(),
            r.last_seq is None,
    {
        RoutedWrite { parts, total: 0, client_ids: StringMap::new(), last_seq: None }
    }

    /// Adds an ingest into one partition.
    pub fn add_ingest(&mut self, count: usize, client_ids: StringMap<u64>, seq: Option<u64>)
        requires
            old(self).total + count <= usize::MAX,
        ensures
            final(self).parts == old(self).parts,
            final(self).total == old(self).total + count,
            final(self).client_ids@ == old(self).client_ids@.union_prefer_right(client_ids@),
            final(self).last_seq == seq,
    {
        let ghost start = self.client_ids@;
        let ghost more = client_ids@;
        let ghost pairs = client_ids.pairs();
        self.total = self.total + count;
        self.last_seq = seq;
        let entries = client_ids.into_entries();
        let ghost ents = entries@;
        let mut done: Ghost<int> = Ghost(0);
        proof {
            assert(start.union_prefer_right(
                crate::assoc::pairs_map(pairs.subrange(0, 0)),
            ) =~= start);
        }
        for e in it: entries
            invariant
                it.seq() == ents,
                done@ == it.index(),
                0 <= done@ <= ents.len(),
                ents.len() == pairs.len(),
                crate::assoc::distinct_keys(pairs),
                forall|i: int|
                    0 <= i < ents.len() ==> ((#[trigger] ents[i]).0@, ents[i].1@) == pairs[i],
                self.parts == old(self).parts,
                self.total == old(self).total + count,
                self.last_seq == seq,
                self.client_ids@ == start.union_prefer_right(
                    crate::assoc::pairs_map(pairs.subrange(0, done@)),
                ),
        {
            proof {
                let shorter = pairs.subrange(0, done@);
                let longer = pairs.subrange(0, done@ + 1);
                let (k, v) = pairs[done@];
                assert(ents[done@] == e);
                assert(!crate::assoc::has_key(shorter, k)) by {
                    assert forall|i: int| 0 <= i < shorter.len() implies (#[trigger] shorter[i]).0
                        != k by {
                        assert(pairs[i].0 != pairs[done@].0);
                    }
                }
                crate::assoc::lemma_pairs_insert(shorter, done@, k, v);
                assert(longer =~= shorter.insert(done@, (k, v)));
                assert(start.union_prefer_right(crate::assoc::pairs_map(shorter)).insert(k, v)
                    =~= start.union_prefer_right(crate::assoc::pairs_map(longer)));
                done@ = done@ + 1;
            }
            self.client_ids.insert(e.0, e.1);
        }
        proof {
            assert(pairs.subrange(0, pairs.len() as int) =~= pairs);
        }
    }

    /// Adds a delete in one partition. A partition that does not exist adds
    /// nothing; any other error ends the request.
    pub fn add_delete(&mut self, outcome: Result<(usize, Option<u64>), EngineError>) -> (r: Result<
        (),
        EngineError,
    >)
        requires
            outcome matches Ok(o) ==> old(self).total + o.0 <= usize::MAX,
        ensures
            match outcome {
                Ok(o) => r is Ok && *final(self) == (RoutedWrite {
                    total: (old(self).total + o.0) as usize,
                    last_seq: o.1,
                    ..*old(self)
                }),
                Err(e) => *final(self) == *old(self) && (r is Ok <==> e@.not_found) && (
                r matches Err(x) ==> x == e),
            },
    {
        match outcome {
            Ok((n, seq)) => {
                self.total = self.total + n;
                self.last_seq = seq;
                Ok(())
            },
            Err(e) => {
                if e.is_not_found() {
                    Ok(())
                } else {
                    Err(e)
                }
            },
        }
    }

    /// The log entry to report: partitions have logs of their own, so there is
    /// one only if a single partition was written to.
    pub fn seq(&self) -> (r: Option<u64>)
        ensures
            r == (if self.parts > 1 {
                None
            } else {
                self.last_seq
            }),
    {
        if self.parts > 1 {
            None
        } else {
            self.last_seq
        }
    }
}

// ── Laws ────────────────────────────────────────────────────────────────

/// The best hits are hits, and no hit that is left out scores higher than one
/// that is not.
pub proof fn law_best_hits_are_best(
    hits: Seq<SearchHit>,
    top_k: usize,
    best: Seq<SearchHit>,
    i: int,
    other: SearchHit,
)
    requires
        best_hits(hits, top_k, best),
        0 <= i < best.len(),
    ensures
        hits.contains(best[i]),
        best.len() == if hits.len() < top_k {
            hits.len()
        } else {
            top_k as nat
        },
        hits.contains(other) && !best.contains(other) ==> score_key(other.score) <= score_key(
            best[i].score,
        ),
{
    let t = choose|t: Seq<SearchHit>| #[trigger]
        sorted_form(by_score(hits), by_score(t)) && best == first(t, top_k);
    let a = by_score(hits);
    let b = by_score(t);
    assert(b[i] == b[i] && best[i] == t[i]);
    let p = crate::sorting::of_rank(b[i].0);
    crate::assoc::lemma_filter_contains(a, p, b[i]);
    crate::assoc::lemma_filter_contains(b, p, b[i]);
    assert(b.contains(b[i]));
    let k = choose|k: int| 0 <= k < a.len() && a[k] == b[i];
    assert(hits[k] == best[i]);
    if hits.contains(other) && !best.contains(other) {
        let m = choose|m: int| 0 <= m < hits.len() && hits[m] == other;
        let q = crate::sorting::of_rank(a[m].0);
        crate::assoc::lemma_filter_contains(a, q, a[m]);
        crate::assoc::lemma_filter_contains(b, q, a[m]);
        assert(a.contains(a[m]));
        let n = choose|n: int| 0 <= n < b.len() && b[n] == a[m];
        assert(t[n] == other);
        if n < best.len() {
            assert(best[n] == other);
        }
        assert(b[i].0 <= b[n].0);
    }
}

/// The best hits come out best first.
pub proof fn law_best_hits_in_order(
    hits: Seq<SearchHit>,
    top_k: usize,
    best: Seq<SearchHit>,
    i: int,
    j: int,
)
    requires
        best_hits(hits, top_k, best),
        0 <= i < j < best.len(),
    ensures
        score_key(best[i].score) >= score_key(best[j].score),
{
    let t = choose|t: Seq<SearchHit>| #[trigger]
        sorted_form(by_score(hits), by_score(t)) && best == first(t, top_k);
    let b = by_score(t);
    assert(b[i].0 <= b[j].0);
    assert(best[i] == t[i] && best[j] == t[j]);
}

/// A request goes to the partitions that its filter on the partition field names, in the
/// filter's order, and to no other: to one for an exact value, and to one for each value
/// of a list. It names at most 16, and one only where it waits for a write.
pub proof fn law_targets_are_the_named_partitions(
    parent: Seq<char>,
    field: Seq<char>,
    filters: Map<Seq<char>, FilterView>,
    waits: bool,
    names: Seq<Seq<char>>,
    i: int,
)
    requires
        targets(parent, field, filters, waits, Ok(names)),
    ensures
        filters.contains_key(field),
        0 < names.len() <= 16,
        waits ==> names.len() == 1,
        (filters[field] matches FilterView::Exact(MetaView::Text(v)) ==> names.len() == 1
            && names[0] == parent + "--part--"@ + v),
        (filters[field] matches FilterView::Condition { gte, lte, contains, in_values } ==> (
        in_values matches Some(vs) && names.len() == vs.len() && (0 <= i < vs.len() ==> names[i]
            == parent + "--part--"@ + vs[i]))),
{
    let named = named_values(lookup(filters, field))->0;
    assert(names.len() == named.len());
    assert(forall|k: int| 0 <= k < named.len() ==> names[k] == partition_name(parent, named[k]));
}

/// A request that names no partition is refused, and so is one that names more than 16, or
/// more than one where it waits for a write.
pub proof fn law_unrouted_requests_are_refused(
    parent: Seq<char>,
    field: Seq<char>,
    filters: Map<Seq<char>, FilterView>,
    waits: bool,
    r: Result<Seq<Seq<char>>, ErrorView>,
)
    requires
        targets(parent, field, filters, waits, r),
    ensures
        !filters.contains_key(field) ==> r is Err,
        filters.contains_key(field) ==> (filters[field] matches FilterView::Condition {
            gte,
            lte,
            contains,
            in_values,
        } ==> (in_values is None || in_values->0.len() == 0 || in_values->0.len() > 16 || (waits
            && in_values->0.len() > 1) ==> r is Err)),
        r matches Err(e) ==> !e.not_found,
{
}

/// A request whose filter names one partition is routed, whether or not it waits for a write;
/// one that names up to 16 is, unless it waits.
pub proof fn law_routed_requests_are_served(
    parent: Seq<char>,
    field: Seq<char>,
    filters: Map<Seq<char>, FilterView>,
    waits: bool,
    r: Result<Seq<Seq<char>>, ErrorView>,
)
    requires
        targets(parent, field, filters, waits, r),
        filters.contains_key(field),
    ensures
        (filters[field] matches FilterView::Exact(MetaView::Text(v)) ==> (partition_value_error(
            v,
        ) is None ==> r is Ok)),
        (filters[field] matches FilterView::Condition { gte, lte, contains, in_values } ==> (
        in_values matches Some(vs) ==> (0 < vs.len() <= 16 && (waits ==> vs.len() == 1) && (forall|
            i: int,
        |
            0 <= i < vs.len() ==> partition_value_error(#[trigger] vs[i]) is None) ==> r is Ok))),
{
    if let FilterView::Exact(MetaView::Text(v)) = filters[field] {
        let named = named_values(lookup(filters, field))->0;
        assert(named == seq![v]);
        if partition_value_error(v) is None {
            assert forall|i: int| 0 <= i < named.len() implies partition_value_error(
                #[trigger] named[i],
            ) is None by {}
        }
    }
}

} // verus!
