//! Searching a collection: what a request asks for, the candidates that the
//! indexes hand back, and the hits made of them.
use crate::assoc::{lemma_filter_contains, lemma_filter_push};
use crate::duplicate::{text_view, Duplicate};
use crate::errors::{failure, EngineError};
use crate::id_map::IdMap;
use crate::models::{
    relation_views, preset_bits, AnnExplain, ChunkRelation, ChunkView, DocumentChunk, ExplainPlan,
    FilterExplain, MetaView, RecencyConfig, RelationView, SearchHit, SearchRequest,
};
use crate::parents::{
    build_parent_metadata_cache, cached_for, metadata_view, parent_metadata, parent_metadata_for,
};
use crate::text::{decimal, decimal_text, own, text_eq};
use std::collections::HashSet;
use vstd::prelude::*;
use vstd::string::*;

verus! {

broadcast use vstd::std_specs::hash::group_hash_axioms;

// ── What a request asks for ─────────────────────────────────────────────

/// Which indexes a search asks.
#[derive(Debug, Clone, Copy, PartialEq, Eq, Structural)]
pub enum SearchMode {
    Fts,
    Semantic,
    Hybrid,
}

/// The mode that a name stands for.
pub open spec fn mode_named(s: Seq<char>) -> SearchMode {
    if s == "fts"@ {
        SearchMode::Fts
    } else if s == "semantic"@ {
        SearchMode::Semantic
    } else {
        SearchMode::Hybrid
    }
}

impl SearchMode {
    /// The mode that a name stands for; any other name means hybrid.
    pub fn from_str_param(s: &str) -> (r: SearchMode)
        ensures
            r == mode_named(s@),
    {
        if text_eq(s, "fts") {
            SearchMode::Fts
        } else if text_eq(s, "semantic") {
            SearchMode::Semantic
        } else {
            SearchMode::Hybrid
        }
    }

    /// Whether the full-text index is asked.
    pub fn asks_fts(self) -> (r: bool)
        ensures
            r == (self != SearchMode::Semantic),
    {
        match self {
            SearchMode::Semantic => false,
            _ => true,
        }
    }

    /// Whether the vector index is asked.
    pub fn asks_vectors(self) -> (r: bool)
        ensures
            r == (self != SearchMode::Fts),
    {
        match self {
            SearchMode::Fts => false,
            _ => true,
        }
    }
}

/// What a search asks of the indexes.
#[derive(Debug)]
pub struct SearchPlan {
    pub mode: SearchMode,
    /// How many results each index hands back.
    pub fetch: usize,
    /// The vector space asked.
    pub space: String,
    /// There is a filter.
    pub filtered: bool,
}

/// The vector space that a search asks: the one it names, else the
/// collection's default, else `default`.
pub open spec fn searched_space(named: Option<Seq<char>>, default: Option<Seq<char>>) -> Seq<char> {
    match named {
        Some(s) => s,
        None => match default {
            Some(s) => s,
            None => "default"@,
        },
    }
}

/// What a search asks of the indexes. Three times as many results are fetched
/// as are asked for, so that scoring has some to choose from.
pub fn plan_search(req: &SearchRequest, default_space: &Option<String>) -> (r: SearchPlan)
    requires
        req.top_k * 3 <= usize::MAX,
    ensures
        r.mode == mode_named(req.mode@),
        r.fetch == req.top_k * 3,
        r.space@ == searched_space(text_view(req.vector_space), text_view(*default_space)),
        r.filtered == (req.filters.pairs().len() > 0),
{
    let space = match &req.vector_space {
        Some(s) => s.clone(),
        None => match default_space {
            Some(s) => s.clone(),
            None => own("default"),
        },
    };
    SearchPlan {
        mode: SearchMode::from_str_param(req.mode.as_str()),
        fetch: req.top_k * 3,
        space,
        filtered: !req.filters.is_empty(),
    }
}

/// What an optional recency configuration says.
pub open spec fn recency_view(o: Option<RecencyConfig>) -> Option<(Seq<char>, u64, u64)> {
    match o {
        Some(c) => Some(c@),
        None => None,
    }
}

/// The recency configuration of a request: the explicit one, else the preset
/// on the field, if both are given and the preset exists.
pub open spec fn recency_asked(
    explicit: Option<(Seq<char>, u64, u64)>,
    preset: Option<Seq<char>>,
    field: Option<Seq<char>>,
) -> Option<(Seq<char>, u64, u64)> {
    if explicit is Some {
        explicit
    } else if preset is Some && field is Some {
        match preset_bits(preset->0) {
            Some((half_life, floor)) => Some((field->0, half_life, floor)),
            None => None,
        }
    } else {
        None
    }
}

/// The recency configuration of a request.
pub fn recency_of(req: &SearchRequest) -> (r: Option<RecencyConfig>)
    ensures
        recency_view(r) == recency_asked(
            recency_view(req.recency),
            text_view(req.recency_preset),
            text_view(req.recency_field),
        ),
{
    if let Some(c) = &req.recency {
        return Some(c.duplicate());
    }
    match (&req.recency_preset, &req.recency_field) {
        (Some(p), Some(f)) => RecencyConfig::from_preset(p.as_str(), f.clone()),
        _ => None,
    }
}

/// Whether a request asks for more than the scores of the indexes.
pub fn has_scoring(req: &SearchRequest) -> (r: bool)
    ensures
        r == (recency_asked(
            recency_view(req.recency),
            text_view(req.recency_preset),
            text_view(req.recency_field),
        ) is Some || req.boosts@.len() > 0 || req.relationship_boost is Some),
{
    let recency = recency_of(req);
    recency.is_some() || req.boosts.len() > 0 || req.relationship_boost.is_some()
}

/// The log entry that a search waits for, if any: a node without object storage has
/// no log, and what a request says of it is not heeded.
pub fn awaited_seq(min_seq: Option<u64>, cloud_mode: bool) -> (r: Option<u64>)
    ensures
        r == (if cloud_mode {
            min_seq
        } else {
            None
        }),
{
    if cloud_mode {
        min_seq
    } else {
        None
    }
}

/// What a search that waits for a log entry does after a refresh: `Ok` means to
/// wait a little and look again. An entry that was never written is refused,
/// and so is one that took too long.
pub fn after_refresh(min_seq: u64, next_seq: u64, expired: bool) -> (r: Result<(), EngineError>)
    ensures
        r is Ok <==> min_seq < next_seq && !expired,
        r matches Err(e) ==> e@ == failure(
            if min_seq >= next_seq {
                "min_seq "@ + decimal(min_seq as nat)
                    + " is beyond the collection's write history ("@ + decimal(next_seq as nat)
                    + ")"@
            } else {
                "timed out waiting for min_seq "@ + decimal(min_seq as nat) + " to be applied"@
            },
        ),
{
    if min_seq >= next_seq {
        let mut s = own("min_seq ");
        s.append(decimal_text(min_seq).as_str());
        s.append(" is beyond the collection's write history (");
        s.append(decimal_text(next_seq).as_str());
        s.append(")");
        return Err(EngineError::Failed(s));
    }
    if expired {
        let mut s = own("timed out waiting for min_seq ");
        s.append(decimal_text(min_seq).as_str());
        s.append(" to be applied");
        return Err(EngineError::Failed(s));
    }
    Ok(())
}

// ── Candidates ──────────────────────────────────────────────────────────

/// A result that may become a hit. Scores are single-precision bit patterns.
#[derive(Debug, Clone)]
pub struct ScoredCandidate {
    pub chunk_id: u64,
    pub base_score: u32,
    pub final_score: u32,
    /// "fts", "semantic" or "both".
    pub source: String,
}

/// What a candidate says.
#[verifier::ext_equal]
pub struct CandidateView {
    pub chunk_id: u64,
    pub base_score: u32,
    pub final_score: u32,
    pub source: Seq<char>,
}

impl View for ScoredCandidate {
    type V = CandidateView;

    open spec fn view(&self) -> CandidateView {
        CandidateView {
            chunk_id: self.chunk_id,
            base_score: self.base_score,
            final_score: self.final_score,
            source: self.source@,
        }
    }
}

/// What each candidate of a list says.
pub open spec fn candidate_views(s: Seq<ScoredCandidate>) -> Seq<CandidateView> {
    Seq::new(s.len(), |i: int| s[i]@)
}

/// Results with the score that the index gave them.
pub open spec fn as_candidates(results: Seq<(u64, u32)>, source: Seq<char>) -> Seq<CandidateView> {
    Seq::new(
        results.len(),
        |i: int|
            CandidateView {
                chunk_id: results[i].0,
                base_score: results[i].1,
                final_score: results[i].1,
                source,
            },
    )
}

/// The result is in the set.
pub open spec fn result_in(ids: Set<u64>) -> spec_fn((u64, u32)) -> bool {
    |e: (u64, u32)| ids.contains(e.0)
}

/// Full-text results that pass the filter, if there is one.
pub fn keep_eligible(results: Vec<(u64, u32)>, eligible: &HashSet<u64>, filtered: bool) -> (r: Vec<
    (u64, u32),
>)
    ensures
        r@ == (if filtered {
            results@.filter(result_in(eligible@))
        } else {
            results@
        }),
{
    if !filtered {
        return results;
    }
    let ghost all = results@;
    let ghost p = result_in(eligible@);
    let mut out: Vec<(u64, u32)> = Vec::new();
    let mut i: usize = 0;
    proof {
        reveal(Seq::filter);
        assert(all.subrange(0, 0) =~= Seq::empty());
    }
    while i < results.len()
        invariant
            all == results@,
            i <= all.len(),
            p == result_in(eligible@),
            out@ == all.subrange(0, i as int).filter(p),
        decreases results.len() - i,
    {
        proof {
            let shorter = all.subrange(0, i as int);
            assert(all.subrange(0, i + 1) =~= shorter.push(all[i as int]));
            lemma_filter_push(shorter, all[i as int], p);
        }
        let e = results[i];
        if eligible.contains(&e.0) {
            out.push(e);
        }
        i = i + 1;
    }
    proof {
        assert(all.subrange(0, all.len() as int) =~= all);
    }
    out
}

fn into_candidates(results: &Vec<(u64, u32)>, source: &str) -> (r: Vec<ScoredCandidate>)
    ensures
        candidate_views(r@) == as_candidates(results@, source@),
{
    let mut out: Vec<ScoredCandidate> = Vec::new();
    let mut i: usize = 0;
    while i < results.len()
        invariant
            i <= results@.len(),
            out@.len() == i,
            forall|k: int|
                0 <= k < i ==> (#[trigger] out@[k])@ == as_candidates(results@, source@)[k],
        decreases results.len() - i,
    {
        let e = results[i];
        out.push(
            ScoredCandidate {
                chunk_id: e.0,
                base_score: e.1,
                final_score: e.1,
                source: own(source),
            },
        );
        i = i + 1;
    }
    proof {
        assert(candidate_views(out@) =~= as_candidates(results@, source@));
    }
    out
}

/// The candidates of a search: in hybrid mode the merged list, unless neither
/// index found anything; else what the one index found.
pub open spec fn candidates_of(
    mode: SearchMode,
    fts: Seq<(u64, u32)>,
    semantic: Seq<(u64, u32)>,
    merged: Seq<CandidateView>,
) -> Seq<CandidateView> {
    match mode {
        SearchMode::Hybrid => if fts.len() > 0 || semantic.len() > 0 {
            merged
        } else {
            Seq::empty()
        },
        SearchMode::Fts => as_candidates(fts, "fts"@),
        SearchMode::Semantic => as_candidates(semantic, "semantic"@),
    }
}

/// The candidate is not deleted.
pub open spec fn not_deleted(deleted: Set<u64>) -> spec_fn(CandidateView) -> bool {
    |c: CandidateView| !deleted.contains(c.chunk_id)
}

/// The candidates of a search, without those that were deleted: the indexes
/// still hold deleted chunks.
pub fn live_candidates(
    mode: SearchMode,
    fts: &Vec<(u64, u32)>,
    semantic: &Vec<(u64, u32)>,
    merged: Vec<ScoredCandidate>,
    deleted: &HashSet<u64>,
) -> (r: Vec<ScoredCandidate>)
    ensures
        candidate_views(r@) == candidates_of(
            mode,
            fts@,
            semantic@,
            candidate_views(merged@),
        ).filter(not_deleted(deleted@)),
{
    let candidates: Vec<ScoredCandidate> = match mode {
        SearchMode::Hybrid => {
            if fts.len() > 0 || semantic.len() > 0 {
                merged
            } else {
                let none: Vec<ScoredCandidate> = Vec::new();
                proof {
                    assert(candidate_views(none@) =~= Seq::empty());
                }
                none
            }
        },
        SearchMode::Fts => into_candidates(fts, "fts"),
        SearchMode::Semantic => into_candidates(semantic, "semantic"),
    };
    let ghost source = candidates@;
    let ghost all = candidate_views(candidates@);
    let ghost p = not_deleted(deleted@);
    let mut out: Vec<ScoredCandidate> = Vec::new();
    let mut done: Ghost<int> = Ghost(0);
    proof {
        reveal(Seq::filter);
        assert(all.subrange(0, 0) =~= Seq::empty());
        assert(candidate_views(out@) =~= Seq::empty());
    }
    for c in it: candidates
        invariant
            it.seq() == source,
            all == candidate_views(source),
            done@ == it.index(),
            0 <= done@ <= all.len(),
            p == not_deleted(deleted@),
            candidate_views(out@) == all.subrange(0, done@).filter(p),
    {
        proof {
            let shorter = all.subrange(0, done@);
            assert(all.subrange(0, done@ + 1) =~= shorter.push(c@));
            lemma_filter_push(shorter, c@, p);
            done@ = done@ + 1;
        }
        if !deleted.contains(&c.chunk_id) {
            let ghost before = candidate_views(out@);
            let ghost v = c@;
            out.push(c);
            proof {
                assert(candidate_views(out@) =~= before.push(v));
            }
        }
    }
    proof {
        assert(all.subrange(0, all.len() as int) =~= all);
    }
    out
}

// ── Hits ────────────────────────────────────────────────────────────────

/// What a hit says.
#[verifier::ext_equal]
pub struct HitView {
    pub chunk: ChunkView,
    pub score: u32,
    pub source: Seq<char>,
    pub parent_metadata: Option<Map<Seq<char>, MetaView>>,
    pub relations: Option<Seq<RelationView>>,
}

impl View for SearchHit {
    type V = HitView;

    open spec fn view(&self) -> HitView {
        HitView {
            chunk: self.chunk@,
            score: self.score,
            source: self.source@,
            parent_metadata: metadata_view(self.parent_metadata),
            relations: match self.relations {
                Some(v) => Some(relation_views(v@)),
                None => None,
            },
        }
    }
}

/// What each hit of a list says.
pub open spec fn hit_views(s: Seq<SearchHit>) -> Seq<HitView> {
    Seq::new(s.len(), |i: int| s[i]@)
}

/// An edge with the status of its target: found if the target is live.
pub open spec fn with_status(e: RelationView, live: Set<u64>) -> RelationView {
    RelationView {
        target_status: if live.contains(e.target_chunk_id) {
            "found"@
        } else {
            "missing"@
        },
        ..e
    }
}

/// Edges with the status of their targets.
pub open spec fn with_statuses(s: Seq<RelationView>, live: Set<u64>) -> Seq<RelationView> {
    Seq::new(s.len(), |i: int| with_status(s[i], live))
}

/// Sets the status of each edge's target.
pub fn resolve_targets(edges: &Vec<ChunkRelation>, live: &HashSet<u64>) -> (r: Vec<ChunkRelation>)
    ensures
        relation_views(r@) == with_statuses(relation_views(edges@), live@),
{
    let mut out: Vec<ChunkRelation> = Vec::new();
    let mut i: usize = 0;
    while i < edges.len()
        invariant
            i <= edges@.len(),
            out@.len() == i,
            forall|k: int| 0 <= k < i ==> (#[trigger] out@[k])@ == with_status(edges@[k]@, live@),
        decreases edges.len() - i,
    {
        let mut e = edges[i].duplicate();
        e.target_status = if live.contains(&e.target_chunk_id) {
            own("found")
        } else {
            own("missing")
        };
        out.push(e);
        i = i + 1;
    }
    proof {
        assert(relation_views(out@) =~= with_statuses(relation_views(edges@), live@));
    }
    out
}

/// The relations handed out with a hit: those stored for its chunk, none if
/// there are none. Nothing is handed out unless it was asked for.
pub open spec fn hit_relations(
    id: u64,
    relations: Map<u64, Seq<ChunkRelation>>,
    live: Set<u64>,
    wanted: bool,
) -> Option<Seq<RelationView>> {
    if !wanted {
        None
    } else if relations.contains_key(id) {
        Some(with_statuses(relation_views(relations[id]), live))
    } else {
        Some(Seq::empty())
    }
}

/// The hits made of candidates, in their order. A candidate whose chunk is not
/// stored makes none.
pub open spec fn hits_of(
    candidates: Seq<CandidateView>,
    chunks: Map<u64, ChunkView>,
    parents: Map<u64, Map<Seq<char>, MetaView>>,
    relations: Map<u64, Seq<ChunkRelation>>,
    live: Set<u64>,
    wanted: bool,
) -> Seq<HitView>
    decreases candidates.len(),
{
    if candidates.len() == 0 {
        Seq::empty()
    } else {
        let before = hits_of(candidates.drop_last(), chunks, parents, relations, live, wanted);
        let c = candidates.last();
        if chunks.contains_key(c.chunk_id) {
            before.push(
                HitView {
                    chunk: chunks[c.chunk_id],
                    score: c.final_score,
                    source: c.source,
                    parent_metadata: cached_for(chunks[c.chunk_id], parents),
                    relations: hit_relations(c.chunk_id, relations, live, wanted),
                },
            )
        } else {
            before
        }
    }
}

/// The ids of candidates.
pub open spec fn candidate_ids(s: Seq<CandidateView>) -> Seq<u64> {
    Seq::new(s.len(), |i: int| s[i].chunk_id)
}

/// The first so many elements.
pub open spec fn first<A>(s: Seq<A>, n: usize) -> Seq<A> {
    if s.len() <= n {
        s
    } else {
        s.subrange(0, n as int)
    }
}

/// The ids whose chunks and relations the hits are made of.
pub fn ids_of_candidates(candidates: &Vec<ScoredCandidate>) -> (r: Vec<u64>)
    ensures
        r@ == candidate_ids(candidate_views(candidates@)),
{
    let mut out: Vec<u64> = Vec::new();
    let mut i: usize = 0;
    while i < candidates.len()
        invariant
            i <= candidates@.len(),
            out@.len() == i,
            forall|k: int| 0 <= k < i ==> #[trigger] out@[k] == candidates@[k].chunk_id,
        decreases candidates.len() - i,
    {
        out.push(candidates[i].chunk_id);
        i = i + 1;
    }
    proof {
        assert(out@ =~= candidate_ids(candidate_views(candidates@)));
    }
    out
}

/// The ids of the candidates that a response has room for.
pub fn top_ids(candidates: &Vec<ScoredCandidate>, top_k: usize) -> (r: Vec<u64>)
    ensures
        r@ == candidate_ids(first(candidate_views(candidates@), top_k)),
{
    let mut ids = ids_of_candidates(candidates);
    ids.truncate(top_k);
    proof {
        assert(ids@ =~= candidate_ids(first(candidate_views(candidates@), top_k)));
    }
    ids
}

/// The candidates that a response has room for.
pub fn keep_top(candidates: Vec<ScoredCandidate>, top_k: usize) -> (r: Vec<ScoredCandidate>)
    ensures
        candidate_views(r@) == first(candidate_views(candidates@), top_k),
{
    let mut kept = candidates;
    let ghost all = candidate_views(kept@);
    kept.truncate(top_k);
    proof {
        assert(candidate_views(kept@) =~= first(all, top_k));
    }
    kept
}

/// The hits made of the candidates that a response has room for. `chunks` are
/// the stored chunks, `relations` the stored relations by chunk. A segment's hit
/// has its parent's metadata.
pub fn build_hits(
    candidates: &Vec<ScoredCandidate>,
    chunks: &IdMap<DocumentChunk>,
    relations: &IdMap<Vec<ChunkRelation>>,
    live: &HashSet<u64>,
    include_relations: bool,
) -> (r: Vec<SearchHit>)
    ensures
        hit_views(r@) == hits_of(
            candidate_views(candidates@),
            chunks@,
            parent_metadata(candidate_ids(candidate_views(candidates@)), chunks@),
            relations@,
            live@,
            include_relations,
        ),
        forall|i: int|
            0 <= i < r@.len() ==> #[trigger] made_of(r@[i], candidates@, chunks@),
{
    let ids = ids_of_candidates(candidates);
    let cache = build_parent_metadata_cache(&ids, chunks);
    let ghost all = candidate_views(candidates@);
    let mut out: Vec<SearchHit> = Vec::new();
    let mut i: usize = 0;
    proof {
        assert(all.subrange(0, 0) =~= Seq::empty());
        assert(hit_views(out@) =~= Seq::empty());
    }
    while i < candidates.len()
        invariant
            i <= candidates@.len(),
            all == candidate_views(candidates@),
            hit_views(out@) == hits_of(
                all.subrange(0, i as int),
                chunks@,
                cache@,
                relations@,
                live@,
                include_relations,
            ),
        decreases candidates.len() - i,
    {
        let c = &candidates[i];
        let ghost before = hit_views(out@);
        proof {
            assert(all.subrange(0, i + 1).drop_last() =~= all.subrange(0, i as int));
            assert(all.subrange(0, i + 1).last() == c@);
        }
        if let Some(chunk) = chunks.get(c.chunk_id) {
            let rels: Option<Vec<ChunkRelation>> = if include_relations {
                match relations.get(c.chunk_id) {
                    Some(v) => Some(resolve_targets(v, live)),
                    None => {
                        let none: Vec<ChunkRelation> = Vec::new();
                        proof {
                            assert(relation_views(none@) =~= Seq::empty());
                        }
                        Some(none)
                    },
                }
            } else {
                None
            };
            let hit = SearchHit {
                chunk: chunk.duplicate(),
                score: c.final_score,
                source: c.source.clone(),
                parent_metadata: parent_metadata_for(chunk, &cache),
                relations: rels,
            };
            let ghost v = hit@;
            out.push(hit);
            proof {
                assert(hit_views(out@) =~= before.push(v));
            }
        }
        i = i + 1;
    }
    proof {
        assert(all.subrange(0, all.len() as int) =~= all);
        assert forall|i: int| 0 <= i < out@.len() implies #[trigger] made_of(
            out@[i],
            candidates@,
            chunks@,
        ) by {
            let hits = hits_of(all, chunks@, cache@, relations@, live@, include_relations);
            assert(hit_views(out@)[i] == out@[i]@);
            law_hits_carry_final_scores(
                all,
                chunks@,
                cache@,
                relations@,
                live@,
                include_relations,
                i,
            );
            let k = choose|k: int|
                0 <= k < all.len() && chunks@.contains_key((#[trigger] all[k]).chunk_id)
                    && hits[i].chunk == chunks@[all[k].chunk_id] && hits[i].score
                    == all[k].final_score && hits[i].source == all[k].source
                    && hits[i].parent_metadata == cached_for(chunks@[all[k].chunk_id], cache@);
            assert(candidates@[k]@ == all[k]);
        }
    }
    out
}

/// The hit is made of one of the candidates: it has the stored chunk of the candidate, its
/// final score and its source.
pub open spec fn made_of(
    hit: SearchHit,
    candidates: Seq<ScoredCandidate>,
    chunks: Map<u64, ChunkView>,
) -> bool {
    exists|k: int|
        0 <= k < candidates.len() && chunks.contains_key((#[trigger] candidates[k]).chunk_id)
            && hit.chunk@ == chunks[candidates[k].chunk_id] && hit.score
            == candidates[k].final_score && hit.source@ == candidates[k].source@
}

// ── The plan of a query ─────────────────────────────────────────────────

/// How the vector index was asked.
#[derive(Debug, Clone, Copy, PartialEq, Eq, Structural)]
pub enum VectorRun {
    /// It was not asked.
    NotRun,
    /// Without a filter.
    Unfiltered,
    /// With a filter, on the graph or on every vector.
    Filtered { used_hnsw: bool, candidates_inspected: u64 },
}

/// The name of the engine that was asked.
pub open spec fn engine_name(run: VectorRun) -> Seq<char> {
    match run {
        VectorRun::NotRun => "none"@,
        VectorRun::Unfiltered => "hnsw"@,
        VectorRun::Filtered { used_hnsw, .. } => if used_hnsw {
            "hnsw"@
        } else {
            "brute_force"@
        },
    }
}

/// The plan of a query. The candidates inspected are known of a filtered walk of
/// the graph only.
pub fn explain_plan(filter: FilterExplain, run: VectorRun, ef_search: u64) -> (r: ExplainPlan)
    ensures
        r.filter == filter,
        r.ann.engine@ == engine_name(run),
        r.ann.candidates_inspected == (match run {
            VectorRun::Filtered { used_hnsw: true, candidates_inspected } => Some(
                candidates_inspected,
            ),
            _ => None,
        }),
        r.ann.ef_search_used == ef_search,
{
    let (engine, inspected): (String, Option<u64>) = match run {
        VectorRun::NotRun => (own("none"), None),
        VectorRun::Unfiltered => (own("hnsw"), None),
        VectorRun::Filtered { used_hnsw, candidates_inspected } => {
            if used_hnsw {
                (own("hnsw"), Some(candidates_inspected))
            } else {
                (own("brute_force"), None)
            }
        },
    };
    ExplainPlan {
        filter,
        ann: AnnExplain {
            engine,
            candidates_inspected: inspected,
            ef_search_used: ef_search,
        },
    }
}

// ── Laws ────────────────────────────────────────────────────────────────

/// No search returns a deleted chunk, in any mode.
pub proof fn law_deleted_is_never_found(
    mode: SearchMode,
    fts: Seq<(u64, u32)>,
    semantic: Seq<(u64, u32)>,
    merged: Seq<CandidateView>,
    deleted: Set<u64>,
    i: int,
)
    requires
        0 <= i < candidates_of(mode, fts, semantic, merged).filter(not_deleted(deleted)).len(),
    ensures
        !deleted.contains(
            candidates_of(mode, fts, semantic, merged).filter(not_deleted(deleted))[i].chunk_id,
        ),
{
    let all = candidates_of(mode, fts, semantic, merged);
    let kept = all.filter(not_deleted(deleted));
    lemma_filter_contains(all, not_deleted(deleted), kept[i]);
    assert(kept.contains(kept[i]));
}

/// Results of a list name a chunk.
pub open spec fn names(results: Seq<(u64, u32)>, id: u64) -> bool {
    exists|k: int| 0 <= k < results.len() && (#[trigger] results[k]).0 == id
}

/// A filtered search returns eligible chunks only, in any mode: the full-text
/// results are filtered, the vector index hands back eligible chunks, and
/// merging adds no chunk of its own.
pub proof fn law_filter_is_respected(
    mode: SearchMode,
    fts: Seq<(u64, u32)>,
    semantic: Seq<(u64, u32)>,
    merged: Seq<CandidateView>,
    eligible: Set<u64>,
    i: int,
)
    requires
        forall|id: u64| #[trigger] names(semantic, id) ==> eligible.contains(id),
        forall|k: int|
            0 <= k < merged.len() ==> names(
                fts.filter(result_in(eligible)),
                (#[trigger] merged[k]).chunk_id,
            ) || names(semantic, merged[k].chunk_id),
        0 <= i < candidates_of(mode, fts.filter(result_in(eligible)), semantic, merged).len(),
    ensures
        eligible.contains(
            candidates_of(mode, fts.filter(result_in(eligible)), semantic, merged)[i].chunk_id,
        ),
{
    let kept = fts.filter(result_in(eligible));
    assert forall|id: u64| #[trigger] names(kept, id) implies eligible.contains(id) by {
        let k = choose|k: int| 0 <= k < kept.len() && (#[trigger] kept[k]).0 == id;
        lemma_filter_contains(fts, result_in(eligible), kept[k]);
        assert(kept.contains(kept[k]));
    }
    match mode {
        SearchMode::Hybrid => {},
        SearchMode::Fts => {
            assert(kept[i].0 == as_candidates(kept, "fts"@)[i].chunk_id);
            assert(names(kept, kept[i].0));
        },
        SearchMode::Semantic => {
            assert(names(semantic, semantic[i].0));
        },
    }
}

/// A search never returns more hits than candidates.
pub proof fn law_hits_fit(
    candidates: Seq<CandidateView>,
    chunks: Map<u64, ChunkView>,
    parents: Map<u64, Map<Seq<char>, MetaView>>,
    relations: Map<u64, Seq<ChunkRelation>>,
    live: Set<u64>,
    wanted: bool,
)
    ensures
        hits_of(candidates, chunks, parents, relations, live, wanted).len() <= candidates.len(),
    decreases candidates.len(),
{
    if candidates.len() > 0 {
        law_hits_fit(candidates.drop_last(), chunks, parents, relations, live, wanted);
    }
}

/// Every hit of a search is the stored chunk of one of the candidates, and has its
/// relations exactly if they were asked for.
pub proof fn law_hits_are_stored_candidates(
    candidates: Seq<CandidateView>,
    chunks: Map<u64, ChunkView>,
    parents: Map<u64, Map<Seq<char>, MetaView>>,
    relations: Map<u64, Seq<ChunkRelation>>,
    live: Set<u64>,
    wanted: bool,
    i: int,
)
    requires
        0 <= i < hits_of(candidates, chunks, parents, relations, live, wanted).len(),
    ensures
        exists|k: int|
            0 <= k < candidates.len() && chunks.contains_key(
                (#[trigger] candidates[k]).chunk_id,
            ) && hits_of(candidates, chunks, parents, relations, live, wanted)[i].chunk
                == chunks[candidates[k].chunk_id],
        hits_of(candidates, chunks, parents, relations, live, wanted)[i].relations is Some
            <==> wanted,
    decreases candidates.len(),
{
    let init = candidates.drop_last();
    let before = hits_of(init, chunks, parents, relations, live, wanted);
    if i < before.len() {
        law_hits_are_stored_candidates(init, chunks, parents, relations, live, wanted, i);
        let k = choose|k: int|
            0 <= k < init.len() && chunks.contains_key((#[trigger] init[k]).chunk_id)
                && before[i].chunk == chunks[init[k].chunk_id];
        assert(candidates[k] == init[k]);
    } else {
        assert(chunks.contains_key(candidates[candidates.len() - 1].chunk_id));
    }
}

/// An explicit recency configuration overrides any preset, and a preset does
/// nothing without a field.
pub proof fn law_explicit_recency_wins(
    explicit: (Seq<char>, u64, u64),
    preset: Option<Seq<char>>,
    field: Option<Seq<char>>,
)
    ensures
        recency_asked(Some(explicit), preset, field) == Some(explicit),
        recency_asked(None, preset, None) is None,
{
}

/// Each hit of an answer carries the final score of the candidate that it is made of,
/// and its source: for every hit there is a candidate with the hit's chunk, score and
/// source.
pub proof fn law_hits_carry_final_scores(
    candidates: Seq<CandidateView>,
    chunks: Map<u64, ChunkView>,
    parents: Map<u64, Map<Seq<char>, MetaView>>,
    relations: Map<u64, Seq<ChunkRelation>>,
    live: Set<u64>,
    wanted: bool,
    i: int,
)
    requires
        0 <= i < hits_of(candidates, chunks, parents, relations, live, wanted).len(),
    ensures
        ({
            let hit = hits_of(candidates, chunks, parents, relations, live, wanted)[i];
            exists|k: int|
                0 <= k < candidates.len() && chunks.contains_key(
                    (#[trigger] candidates[k]).chunk_id,
                ) && hit.chunk == chunks[candidates[k].chunk_id] && hit.score
                    == candidates[k].final_score && hit.source == candidates[k].source
                    && hit.parent_metadata == cached_for(chunks[candidates[k].chunk_id], parents)
        }),
    decreases candidates.len(),
{
    let init = candidates.drop_last();
    let before = hits_of(init, chunks, parents, relations, live, wanted);
    if i < before.len() {
        law_hits_carry_final_scores(init, chunks, parents, relations, live, wanted, i);
        let k = choose|k: int|
            0 <= k < init.len() && chunks.contains_key((#[trigger] init[k]).chunk_id)
                && before[i].chunk == chunks[init[k].chunk_id] && before[i].score
                == init[k].final_score && before[i].source == init[k].source
                && before[i].parent_metadata == cached_for(chunks[init[k].chunk_id], parents);
        assert(candidates[k] == init[k]);
    } else {
        assert(chunks.contains_key(candidates[candidates.len() - 1].chunk_id));
    }
}

/// Candidates that are all stored become hits one for one, in their order: the same
/// chunk, final score and source.
pub proof fn law_hits_keep_the_ranking(
    candidates: Seq<CandidateView>,
    chunks: Map<u64, ChunkView>,
    parents: Map<u64, Map<Seq<char>, MetaView>>,
    relations: Map<u64, Seq<ChunkRelation>>,
    live: Set<u64>,
    wanted: bool,
)
    requires
        forall|k: int|
            0 <= k < candidates.len() ==> chunks.contains_key((#[trigger] candidates[k]).chunk_id),
    ensures
        ({
            let hits = hits_of(candidates, chunks, parents, relations, live, wanted);
            &&& hits.len() == candidates.len()
            &&& forall|k: int|
                0 <= k < candidates.len() ==> (#[trigger] hits[k]).chunk
                    == chunks[candidates[k].chunk_id] && hits[k].score == candidates[k].final_score
                    && hits[k].source == candidates[k].source
        }),
    decreases candidates.len(),
{
    if candidates.len() > 0 {
        let init = candidates.drop_last();
        assert forall|k: int| 0 <= k < init.len() implies chunks.contains_key(
            (#[trigger] init[k]).chunk_id,
        ) by {
            assert(init[k] == candidates[k]);
        }
        law_hits_keep_the_ranking(init, chunks, parents, relations, live, wanted);
        assert(chunks.contains_key(candidates[candidates.len() - 1].chunk_id));
        let before = hits_of(init, chunks, parents, relations, live, wanted);
        let hits = hits_of(candidates, chunks, parents, relations, live, wanted);
        assert forall|k: int| 0 <= k < candidates.len() implies (#[trigger] hits[k]).chunk
            == chunks[candidates[k].chunk_id] && hits[k].score == candidates[k].final_score
            && hits[k].source == candidates[k].source by {
            if k < init.len() {
                assert(hits[k] == before[k]);
                assert(init[k] == candidates[k]);
            }
        }
    }
}

/// A candidate whose chunk is not stored changes no hit; one whose chunk is stored adds
/// one at the end.
pub proof fn law_each_stored_candidate_is_a_hit(
    candidates: Seq<CandidateView>,
    c: CandidateView,
    chunks: Map<u64, ChunkView>,
    parents: Map<u64, Map<Seq<char>, MetaView>>,
    relations: Map<u64, Seq<ChunkRelation>>,
    live: Set<u64>,
    wanted: bool,
)
    ensures
        ({
            let before = hits_of(candidates, chunks, parents, relations, live, wanted);
            let after = hits_of(candidates.push(c), chunks, parents, relations, live, wanted);
            &&& !chunks.contains_key(c.chunk_id) ==> after == before
            &&& chunks.contains_key(c.chunk_id) ==> after.len() == before.len() + 1
                && after.subrange(0, before.len() as int) == before && after.last().chunk
                == chunks[c.chunk_id] && after.last().score == c.final_score && after.last().source
                == c.source
        }),
{
    assert(candidates.push(c).drop_last() =~= candidates);
    let before = hits_of(candidates, chunks, parents, relations, live, wanted);
    let after = hits_of(candidates.push(c), chunks, parents, relations, live, wanted);
    if chunks.contains_key(c.chunk_id) {
        assert(after.subrange(0, before.len() as int) =~= before);
    }
}

/// The relations handed out with a hit are those stored for its chunk, in their order,
/// unchanged but for the status of the target: found exactly if the target is live.
pub proof fn law_hit_relations_are_the_stored_ones(
    id: u64,
    relations: Map<u64, Seq<ChunkRelation>>,
    live: Set<u64>,
    i: int,
)
    ensures
        hit_relations(id, relations, live, false) is None,
        !relations.contains_key(id) ==> hit_relations(id, relations, live, true) == Some(
            Seq::<RelationView>::empty(),
        ),
        relations.contains_key(id) ==> hit_relations(id, relations, live, true) is Some
            && hit_relations(id, relations, live, true)->0.len() == relations[id].len(),
        relations.contains_key(id) && 0 <= i < relations[id].len() ==> ({
            let e = hit_relations(id, relations, live, true)->0[i];
            let stored = relations[id][i];
            &&& e.relation_id == stored.relation_id@
            &&& e.source_chunk_id == stored.source_chunk_id
            &&& e.target_chunk_id == stored.target_chunk_id
            &&& e.target_document_id == text_view(stored.target_document_id)
            &&& e.relation_type == stored.relation_type@
            &&& e.metadata == stored.metadata@
            &&& e.created_at == stored.created_at
            &&& live.contains(stored.target_chunk_id) ==> e.target_status == "found"@
            &&& !live.contains(stored.target_chunk_id) ==> e.target_status == "missing"@
        }),
{
}

/// What an index found becomes candidates one for one, in its order, with the score that
/// it gave as both scores.
pub proof fn law_results_become_candidates(
    results: Seq<(u64, u32)>,
    other: Seq<(u64, u32)>,
    merged: Seq<CandidateView>,
    i: int,
)
    requires
        0 <= i < results.len(),
    ensures
        ({
            let fts = candidates_of(SearchMode::Fts, results, other, merged);
            let semantic = candidates_of(SearchMode::Semantic, other, results, merged);
            &&& fts.len() == results.len() && semantic.len() == results.len()
            &&& fts[i].chunk_id == results[i].0 && semantic[i].chunk_id == results[i].0
            &&& fts[i].base_score == results[i].1 && semantic[i].base_score == results[i].1
            &&& fts[i].final_score == results[i].1 && semantic[i].final_score == results[i].1
            &&& fts[i].source == "fts"@ && semantic[i].source == "semantic"@
        }),
        candidates_of(SearchMode::Hybrid, results, other, merged) == merged,
        candidates_of(SearchMode::Hybrid, other, results, merged) == merged,
{
}

/// An index that found nothing gives no candidate, and neither do two.
pub proof fn law_nothing_found_no_candidate(
    some: Seq<(u64, u32)>,
    merged: Seq<CandidateView>,
)
    ensures
        candidates_of(SearchMode::Fts, Seq::empty(), some, merged).len() == 0,
        candidates_of(SearchMode::Semantic, some, Seq::empty(), merged).len() == 0,
        candidates_of(SearchMode::Hybrid, Seq::empty(), Seq::empty(), merged).len() == 0,
{
}

/// Dropping deleted candidates keeps every other one.
pub proof fn law_live_candidates_stay(
    candidates: Seq<CandidateView>,
    deleted: Set<u64>,
    c: CandidateView,
)
    ensures
        candidates.filter(not_deleted(deleted)).contains(c) <==> candidates.contains(c)
            && !deleted.contains(c.chunk_id),
{
    lemma_filter_contains(candidates, not_deleted(deleted), c);
}

/// A filter keeps exactly the results that are eligible.
pub proof fn law_eligible_results_stay(results: Seq<(u64, u32)>, eligible: Set<u64>, e: (u64, u32))
    ensures
        results.filter(result_in(eligible)).contains(e) <==> results.contains(e)
            && eligible.contains(e.0),
{
    lemma_filter_contains(results, result_in(eligible), e);
}

/// What a response has room for is the beginning of a list: as much of it as fits, in its
/// order.
pub proof fn law_first_is_the_beginning<A>(s: Seq<A>, n: usize, i: int)
    ensures
        first(s, n).len() <= n,
        first(s, n).len() <= s.len(),
        first(s, n).len() == n || first(s, n).len() == s.len(),
        0 <= i < first(s, n).len() ==> first(s, n)[i] == s[i],
{
}

/// The names of the modes; any other name means hybrid.
pub proof fn law_modes_by_name(s: Seq<char>)
    ensures
        mode_named(s) == SearchMode::Fts <==> s == "fts"@,
        mode_named(s) == SearchMode::Semantic <==> s == "semantic"@,
        s != "fts"@ && s != "semantic"@ ==> mode_named(s) == SearchMode::Hybrid,
{
    reveal_strlit("fts");
    reveal_strlit("semantic");
    assert("fts"@.len() != "semantic"@.len());
}

/// A search asks the vector space that it names, whatever the default; else the default.
pub proof fn law_named_space_is_searched(named: Seq<char>, default: Option<Seq<char>>)
    ensures
        searched_space(Some(named), default) == named,
        default is Some ==> searched_space(None, default) == default->0,
        default is None ==> searched_space(None, default) == "default"@,
{
}

/// A preset weighs the field that the request names, by its own half-life and floor: the
/// half-life in days and the floor are 3 and 0.05 for `aggressive`, 7 and 0.2 for `recent`,
/// 30 and 0.3 for `mild`, 90 and 0.5 for `archive`. No other name is a preset.
pub proof fn law_presets_weigh_the_named_field(preset: Seq<char>, field: Seq<char>)
    ensures
        preset == "aggressive"@ ==> recency_asked(None, Some(preset), Some(field)) == Some(
            (field, 0x4008_0000_0000_0000u64, 0x3fa9_9999_9999_999au64),
        ),
        preset == "recent"@ ==> recency_asked(None, Some(preset), Some(field)) == Some(
            (field, 0x401c_0000_0000_0000u64, 0x3fc9_9999_9999_999au64),
        ),
        preset == "mild"@ ==> recency_asked(None, Some(preset), Some(field)) == Some(
            (field, 0x403e_0000_0000_0000u64, 0x3fd3_3333_3333_3333u64),
        ),
        preset == "archive"@ ==> recency_asked(None, Some(preset), Some(field)) == Some(
            (field, 0x4056_8000_0000_0000u64, 0x3fe0_0000_0000_0000u64),
        ),
        preset != "aggressive"@ && preset != "recent"@ && preset != "mild"@ && preset != "archive"@
            ==> recency_asked(None, Some(preset), Some(field)) is None,
{
    reveal_strlit("aggressive");
    reveal_strlit("recent");
    reveal_strlit("mild");
    reveal_strlit("archive");
    assert("aggressive"@.len() == 10 && "recent"@.len() == 6 && "mild"@.len() == 4
        && "archive"@.len() == 7);
}

/// The engine that a plan names is the one that was asked.
pub proof fn law_plans_name_the_engine(inspected: u64)
    ensures
        engine_name(VectorRun::NotRun) == "none"@,
        engine_name(VectorRun::Unfiltered) == "hnsw"@,
        engine_name(
            VectorRun::Filtered { used_hnsw: true, candidates_inspected: inspected },
        ) == "hnsw"@,
        engine_name(
            VectorRun::Filtered { used_hnsw: false, candidates_inspected: inspected },
        ) == "brute_force"@,
{
}

/// A hit that is made of the candidates has one whose chunk, score and source are its own.
pub proof fn law_made_of_one_candidate(
    hit: SearchHit,
    candidates: Seq<ScoredCandidate>,
    chunks: Map<u64, ChunkView>,
)
    requires
        made_of(hit, candidates, chunks),
    ensures
        exists|k: int|
            0 <= k < candidates.len() && (#[trigger] candidates[k]).final_score == hit.score
                && candidates[k].source@ == hit.source@ && chunks.contains_key(
                candidates[k].chunk_id,
            ) && chunks[candidates[k].chunk_id] == hit.chunk@,
{
}

} // verus!
