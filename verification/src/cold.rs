//! Serving searches on collections that a node has not attached, from what object
//! storage holds.
//!
//! A cold search asks the stored vectors only. Collections that are searched often
//! enough are attached in the background.
use crate::assoc::{lemma_filter_contains, lemma_filter_push};
use crate::errors::{failure, EngineError};
use crate::filter::{chunk_matches, matches_filters};
use crate::id_map::IdMap;
use crate::models::{ChunkView, DocumentChunk, FilterValue, FilterView};
use crate::number::Number;
use crate::search::{as_candidates, candidate_views, first, ScoredCandidate, SearchMode};
use crate::string_map::StringMap;
use crate::text::own;
use vstd::prelude::*;
use vstd::string::*;

verus! {

/// Where a search is served from.
#[derive(Debug, Clone, Copy, PartialEq, Eq, Structural)]
pub enum ServeFrom {
    /// The indexes of an attached collection.
    Indexes,
    /// Object storage.
    Storage,
}

/// The error for a full-text search on a collection that is not attached.
pub open spec fn no_cold_text(name: Seq<char>) -> Seq<char> {
    "collection '"@ + name
        + "' is cold on this node: full-text search needs its indexes (use mode \"semantic\")"@
}

/// Where a search is served from. With cold serving on, a collection that is not
/// attached is served from storage; full-text search cannot be, and says so
/// rather than finding nothing.
pub fn serve_from(name: &str, cold_serve: bool, attached: bool, mode: SearchMode) -> (r: Result<
    ServeFrom,
    EngineError,
>)
    ensures
        r is Ok <==> !(cold_serve && !attached && mode == SearchMode::Fts),
        r matches Ok(s) ==> s == (if cold_serve && !attached {
            ServeFrom::Storage
        } else {
            ServeFrom::Indexes
        }),
        r matches Err(e) ==> e@ == failure(no_cold_text(name@)),
{
    if !cold_serve || attached {
        return Ok(ServeFrom::Indexes);
    }
    match mode {
        SearchMode::Fts => {
            let mut s = own("collection '");
            s.append(name);
            s.append(
                "' is cold on this node: full-text search needs its indexes (use mode \"semantic\")",
            );
            Err(EngineError::Failed(s))
        },
        _ => Ok(ServeFrom::Storage),
    }
}

/// The result is a live chunk that passes the filters.
pub open spec fn is_cold_hit(
    chunks: Map<u64, ChunkView>,
    filters: Map<Seq<char>, FilterView>,
    numbers: Map<Seq<char>, u64>,
) -> spec_fn((u64, u32)) -> bool {
    |e: (u64, u32)| chunks.contains_key(e.0) && chunk_matches(chunks[e.0], filters, numbers)
}

/// The results of a cold search that a response has room for: those that are live
/// in the store and pass the filters.
pub open spec fn cold_results(
    results: Seq<(u64, u32)>,
    chunks: Map<u64, ChunkView>,
    filters: Map<Seq<char>, FilterView>,
    numbers: Map<Seq<char>, u64>,
    top_k: usize,
) -> Seq<(u64, u32)> {
    first(results.filter(is_cold_hit(chunks, filters, numbers)), top_k)
}

/// The candidates of a cold search. `results` are the nearest stored vectors, best
/// first; `chunks` are the chunks that the store adds up to.
pub fn cold_candidates(
    results: &Vec<(u64, u32)>,
    chunks: &IdMap<DocumentChunk>,
    filters: &StringMap<FilterValue>,
    numbers: &StringMap<Number>,
    top_k: usize,
) -> (r: Vec<ScoredCandidate>)
    ensures
        candidate_views(r@) == as_candidates(
            cold_results(results@, chunks@, filters@, numbers@, top_k),
            "semantic-cold"@,
        ),
{
    let ghost p = is_cold_hit(chunks@, filters@, numbers@);
    let mut kept: Vec<(u64, u32)> = Vec::new();
    let mut i: usize = 0;
    proof {
        reveal(Seq::filter);
        assert(results@.subrange(0, 0) =~= Seq::empty());
    }
    while i < results.len()
        invariant
            i <= results@.len(),
            p == is_cold_hit(chunks@, filters@, numbers@),
            kept@ == results@.subrange(0, i as int).filter(p),
        decreases results.len() - i,
    {
        let e = results[i];
        proof {
            let shorter = results@.subrange(0, i as int);
            assert(results@.subrange(0, i + 1) =~= shorter.push(e));
            lemma_filter_push(shorter, e, p);
        }
        let matching = match chunks.get(e.0) {
            Some(c) => matches_filters(c, filters, numbers),
            None => false,
        };
        if matching {
            kept.push(e);
        }
        i = i + 1;
    }
    proof {
        assert(results@.subrange(0, results@.len() as int) =~= results@);
    }
    kept.truncate(top_k);
    let ghost top = kept@;
    proof {
        assert(top =~= cold_results(results@, chunks@, filters@, numbers@, top_k));
    }
    let mut out: Vec<ScoredCandidate> = Vec::new();
    let mut j: usize = 0;
    while j < kept.len()
        invariant
            j <= kept@.len(),
            kept@ == top,
            out@.len() == j,
            forall|k: int|
                0 <= k < j ==> (#[trigger] out@[k])@ == as_candidates(top, "semantic-cold"@)[k],
        decreases kept.len() - j,
    {
        let e = kept[j];
        out.push(
            ScoredCandidate {
                chunk_id: e.0,
                base_score: e.1,
                final_score: e.1,
                source: own("semantic-cold"),
            },
        );
        j = j + 1;
    }
    proof {
        assert(candidate_views(out@) =~= as_candidates(top, "semantic-cold"@));
    }
    out
}

/// The cold searches of a collection after one more.
pub open spec fn hits_after(hits: Map<Seq<char>, u64>, name: Seq<char>) -> u64 {
    if hits.contains_key(name) {
        if hits[name] < u64::MAX {
            (hits[name] + 1) as u64
        } else {
            u64::MAX
        }
    } else {
        1
    }
}

/// Counts a cold search, and tells whether the collection is now to be attached:
/// after `warm_after` searches, never if that is 0.
pub fn note_cold_search(hits: &mut StringMap<u64>, name: &str, warm_after: u64) -> (r: bool)
    ensures
        final(hits)@ == old(hits)@.insert(name@, hits_after(old(hits)@, name@)),
        r == (warm_after > 0 && hits_after(old(hits)@, name@) >= warm_after),
{
    let count: u64 = match hits.get(name) {
        Some(n) => {
            if *n < u64::MAX {
                *n + 1
            } else {
                u64::MAX
            }
        },
        None => 1,
    };
    hits.insert(own(name), count);
    warm_after > 0 && count >= warm_after
}

// ── Laws ────────────────────────────────────────────────────────────────

/// A cold search returns chunks that are live in the store and pass the filters,
/// and no more of them than were asked for. So a deleted chunk is never found, and
/// a filter on a tenant keeps tenants apart.
pub proof fn law_cold_search_is_sound(
    results: Seq<(u64, u32)>,
    chunks: Map<u64, ChunkView>,
    filters: Map<Seq<char>, FilterView>,
    numbers: Map<Seq<char>, u64>,
    top_k: usize,
    i: int,
)
    requires
        0 <= i < cold_results(results, chunks, filters, numbers, top_k).len(),
    ensures
        ({
            let found = cold_results(results, chunks, filters, numbers, top_k);
            &&& chunks.contains_key(found[i].0)
            &&& chunk_matches(chunks[found[i].0], filters, numbers)
            &&& found.len() <= top_k
        }),
{
    let p = is_cold_hit(chunks, filters, numbers);
    let kept = results.filter(p);
    lemma_filter_contains(results, p, kept[i]);
    assert(kept.contains(kept[i]));
}

/// A cold search leaves out no live chunk that passes the filters while there is room for
/// all that was found, and keeps each score.
pub proof fn law_cold_search_is_complete(
    results: Seq<(u64, u32)>,
    chunks: Map<u64, ChunkView>,
    filters: Map<Seq<char>, FilterView>,
    numbers: Map<Seq<char>, u64>,
    top_k: usize,
    e: (u64, u32),
)
    requires
        results.len() <= top_k,
    ensures
        cold_results(results, chunks, filters, numbers, top_k).contains(e) <==> results.contains(e)
            && chunks.contains_key(e.0) && chunk_matches(chunks[e.0], filters, numbers),
{
    let p = is_cold_hit(chunks, filters, numbers);
    let kept = results.filter(p);
    lemma_filter_contains(results, p, e);
    results.lemma_filter_len(p);
    assert(first(kept, top_k) =~= kept);
}

/// Each cold search counts one more for its collection, the first one included.
pub proof fn law_cold_searches_are_counted(hits: Map<Seq<char>, u64>, name: Seq<char>)
    ensures
        !hits.contains_key(name) ==> hits_after(hits, name) == 1,
        hits.contains_key(name) && hits[name] < u64::MAX ==> hits_after(hits, name) == hits[name]
            + 1,
        hits.contains_key(name) && hits[name] == u64::MAX ==> hits_after(hits, name) == u64::MAX,
{
}

} // verus!
