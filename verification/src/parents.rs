//! The metadata of a segment's parent, handed out with the segment.
use crate::assoc::lookup;
use crate::duplicate::Duplicate;
use crate::id_map::IdMap;
use crate::models::{ChunkView, DocumentChunk, MetaView, MetadataValue};
use crate::string_map::StringMap;
use crate::text::text_eq;
use vstd::prelude::*;
use vstd::string::*;

verus! {

/// The parent of a segment. Other chunks have none here.
pub open spec fn parent_of_segment(c: ChunkView) -> Option<u64> {
    if c.doc_type == "segment"@ {
        c.parent_id
    } else {
        None
    }
}

/// One of the ids is a stored segment with this parent.
pub open spec fn is_parent_of_some(ids: Seq<u64>, chunks: Map<u64, ChunkView>, parent: u64) -> bool {
    exists|i: int|
        0 <= i < ids.len() && chunks.contains_key(#[trigger] ids[i]) && parent_of_segment(
            chunks[ids[i]],
        ) == Some(parent)
}

/// The metadata of the stored parents of the segments among the ids.
pub open spec fn parent_metadata(ids: Seq<u64>, chunks: Map<u64, ChunkView>) -> Map<
    u64,
    Map<Seq<char>, MetaView>,
> {
    Map::new(
        |p: u64| chunks.contains_key(p) && is_parent_of_some(ids, chunks, p),
        |p: u64| chunks[p].metadata,
    )
}

/// The metadata of an optional parent.
pub open spec fn metadata_view(o: Option<StringMap<MetadataValue>>) -> Option<
    Map<Seq<char>, MetaView>,
> {
    match o {
        Some(m) => Some(m@),
        None => None,
    }
}

proof fn lemma_one_more(ids: Seq<u64>, i: int, chunks: Map<u64, ChunkView>)
    requires
        0 <= i < ids.len(),
    ensures
        forall|p: u64| #[trigger]
            is_parent_of_some(ids.subrange(0, i + 1), chunks, p) <==> is_parent_of_some(
                ids.subrange(0, i),
                chunks,
                p,
            ) || (chunks.contains_key(ids[i]) && parent_of_segment(chunks[ids[i]]) == Some(p)),
{
    let longer = ids.subrange(0, i + 1);
    let shorter = ids.subrange(0, i);
    assert forall|p: u64| #[trigger]
        is_parent_of_some(longer, chunks, p) <==> is_parent_of_some(shorter, chunks, p) || (
        chunks.contains_key(ids[i]) && parent_of_segment(chunks[ids[i]]) == Some(p)) by {
        if is_parent_of_some(shorter, chunks, p) {
            let k = choose|k: int|
                0 <= k < shorter.len() && chunks.contains_key(#[trigger] shorter[k])
                    && parent_of_segment(chunks[shorter[k]]) == Some(p);
            assert(longer[k] == shorter[k]);
        }
        if chunks.contains_key(ids[i]) && parent_of_segment(chunks[ids[i]]) == Some(p) {
            assert(longer[i] == ids[i]);
        }
        if is_parent_of_some(longer, chunks, p) {
            let k = choose|k: int|
                0 <= k < longer.len() && chunks.contains_key(#[trigger] longer[k])
                    && parent_of_segment(chunks[longer[k]]) == Some(p);
            if k < i {
                assert(shorter[k] == longer[k]);
            }
        }
    }
}

/// The metadata of the parents of the segments among the candidates, each looked
/// up once. A parent that is not stored is left out.
pub fn build_parent_metadata_cache(
    candidate_chunk_ids: &Vec<u64>,
    chunks: &IdMap<DocumentChunk>,
) -> (r: IdMap<StringMap<MetadataValue>>)
    ensures
        r@ == parent_metadata(candidate_chunk_ids@, chunks@),
{
    let ghost ids = candidate_chunk_ids@;
    let mut cache: IdMap<StringMap<MetadataValue>> = IdMap::new();
    let mut i: usize = 0;
    proof {
        assert(cache@ =~= parent_metadata(ids.subrange(0, 0), chunks@));
    }
    while i < candidate_chunk_ids.len()
        invariant
            ids == candidate_chunk_ids@,
            i <= ids.len(),
            cache@ == parent_metadata(ids.subrange(0, i as int), chunks@),
        decreases candidate_chunk_ids.len() - i,
    {
        let ghost before = cache@;
        let mut parent: Option<u64> = None;
        if let Some(chunk) = chunks.get(candidate_chunk_ids[i]) {
            if text_eq(chunk.doc_type.as_str(), "segment") {
                parent = chunk.parent_id;
            }
        }
        proof {
            lemma_one_more(ids, i as int, chunks@);
        }
        if let Some(pid) = parent {
            if !cache.contains_key(pid) {
                if let Some(c) = chunks.get(pid) {
                    cache.insert(pid, c.metadata.duplicate());
                }
            }
        }
        proof {
            assert(cache@ =~= parent_metadata(ids.subrange(0, i + 1), chunks@));
        }
        i = i + 1;
    }
    proof {
        assert(ids.subrange(0, ids.len() as int) =~= ids);
    }
    cache
}

/// What a cache holds of a chunk's parent: nothing for a chunk that is no
/// segment or has no parent.
pub open spec fn cached_for(c: ChunkView, cache: Map<u64, Map<Seq<char>, MetaView>>) -> Option<
    Map<Seq<char>, MetaView>,
> {
    match parent_of_segment(c) {
        Some(p) => lookup(cache, p),
        None => None,
    }
}

/// The metadata of a chunk's parent, from a cache.
pub fn parent_metadata_for(
    chunk: &DocumentChunk,
    cache: &IdMap<StringMap<MetadataValue>>,
) -> (r: Option<StringMap<MetadataValue>>)
    ensures
        metadata_view(r) == cached_for(chunk@, cache@),
{
    if !text_eq(chunk.doc_type.as_str(), "segment") {
        return None;
    }
    match chunk.parent_id {
        Some(pid) => match cache.get(pid) {
            Some(m) => Some(m.duplicate()),
            None => None,
        },
        None => None,
    }
}

// ── Laws ────────────────────────────────────────────────────────────────

/// Each candidate that is a segment gets the metadata of its stored parent,
/// whatever the other candidates are; every other candidate gets none, and so
/// does a segment whose parent is not stored.
pub proof fn law_segment_gets_parent_metadata(
    ids: Seq<u64>,
    chunks: Map<u64, ChunkView>,
    i: int,
)
    requires
        0 <= i < ids.len(),
        chunks.contains_key(ids[i]),
    ensures
        cached_for(chunks[ids[i]], parent_metadata(ids, chunks)) == (match parent_of_segment(
            chunks[ids[i]],
        ) {
            Some(p) => if chunks.contains_key(p) {
                Some(chunks[p].metadata)
            } else {
                None
            },
            None => None,
        }),
{
    if let Some(p) = parent_of_segment(chunks[ids[i]]) {
        assert(is_parent_of_some(ids, chunks, p));
    }
}

/// A segment whose parent is stored is handed out with its parent's metadata; one whose
/// parent is not stored, one without a parent, and a chunk that is no segment have none.
pub proof fn law_parents_of_segments_only(ids: Seq<u64>, chunks: Map<u64, ChunkView>, i: int)
    requires
        0 <= i < ids.len(),
        chunks.contains_key(ids[i]),
    ensures
        ({
            let c = chunks[ids[i]];
            let got = cached_for(c, parent_metadata(ids, chunks));
            &&& c.doc_type != "segment"@ ==> got is None
            &&& c.parent_id is None ==> got is None
            &&& c.parent_id matches Some(p) ==> (!chunks.contains_key(p) ==> got is None)
            &&& c.parent_id matches Some(p) ==> (c.doc_type == "segment"@ && chunks.contains_key(p)
                ==> got == Some(chunks[p].metadata))
        }),
{
    law_segment_gets_parent_metadata(ids, chunks, i);
}

} // verus!
