//! Creating edges between chunks.
use crate::clock::{fresh_id, is_random_uuid, now};
use crate::duplicate::{text_view, text_views};
use crate::errors::{failed, failure, EngineError};
use crate::models::{ChunkRelation, CreateRelation, RelationView, Timestamp};
use crate::text::own;
use std::collections::HashSet;
use vstd::prelude::*;
use vstd::string::*;

verus! {

broadcast use vstd::std_specs::hash::group_hash_axioms;

/// The edge joins two different chunks.
pub open spec fn joins_two(n: CreateRelation) -> bool {
    n.source_chunk_id != n.target_chunk_id
}

/// The status of a target as far as a node can tell: a node without indexes
/// knows of no chunk.
pub open spec fn status_of(target: u64, live: Option<Set<u64>>) -> Seq<char> {
    if live is Some && live->0.contains(target) {
        "found"@
    } else {
        "missing"@
    }
}

/// The edge that a request asks for.
pub open spec fn made_edge(
    n: CreateRelation,
    id: Seq<char>,
    at: Timestamp,
    live: Option<Set<u64>>,
) -> RelationView {
    RelationView {
        relation_id: id,
        source_chunk_id: n.source_chunk_id,
        target_chunk_id: n.target_chunk_id,
        target_document_id: text_view(n.target_document_id),
        relation_type: n.relation_type@,
        target_status: status_of(n.target_chunk_id, live),
        metadata: n.metadata@,
        created_at: at,
    }
}

/// The set that a node has, if it has one.
pub open spec fn live_view(live: Option<&HashSet<u64>>) -> Option<Set<u64>> {
    match live {
        Some(s) => Some(s@),
        None => None,
    }
}

/// The edges that a request asks for, with the given ids and time. An edge from a
/// chunk to itself refuses the request.
pub fn build_relations(
    new: Vec<CreateRelation>,
    ids: &Vec<String>,
    at: Timestamp,
    live: Option<&HashSet<u64>>,
) -> (r: Result<Vec<ChunkRelation>, EngineError>)
    requires
        ids@.len() == new@.len(),
    ensures
        r is Ok <==> forall|i: int| 0 <= i < new@.len() ==> joins_two(#[trigger] new@[i]),
        r matches Err(e) ==> e@ == failure("A relation's source and target chunk must differ"@),
        r matches Ok(edges) ==> edges@.len() == new@.len() && forall|i: int|
            0 <= i < new@.len() ==> (#[trigger] edges@[i])@ == made_edge(
                new@[i],
                ids@[i]@,
                at,
                live_view(live),
            ),
        r matches Ok(edges) ==> forall|i: int|
            0 <= i < new@.len() ==> (#[trigger] edges@[i]).source_chunk_id
                == new@[i].source_chunk_id && edges@[i].target_chunk_id == new@[i].target_chunk_id
                && text_view(edges@[i].target_document_id) == text_view(new@[i].target_document_id)
                && edges@[i].relation_type@ == new@[i].relation_type@ && edges@[i].metadata@
                == new@[i].metadata@ && edges@[i].relation_id@ == ids@[i]@ && edges@[i].created_at
                == at,
{
    let ghost all = new@;
    let mut out: Vec<ChunkRelation> = Vec::new();
    let mut done: Ghost<int> = Ghost(0);
    let count: usize = ids.len();
    let mut i: usize = 0;
    for n in it: new
        invariant
            it.seq() == all,
            done@ == it.index(),
            0 <= done@ <= all.len(),
            i == done@,
            ids@.len() == all.len(),
            count == all.len(),
            out@.len() == done@,
            forall|k: int| 0 <= k < done@ ==> joins_two(#[trigger] all[k]),
            forall|k: int|
                0 <= k < done@ ==> (#[trigger] out@[k])@ == made_edge(
                    all[k],
                    ids@[k]@,
                    at,
                    live_view(live),
                ),
            forall|k: int|
                0 <= k < done@ ==> (#[trigger] out@[k]).source_chunk_id == all[k].source_chunk_id
                    && out@[k].target_chunk_id == all[k].target_chunk_id && text_view(
                    out@[k].target_document_id,
                ) == text_view(all[k].target_document_id) && out@[k].relation_type@
                    == all[k].relation_type@ && out@[k].metadata@ == all[k].metadata@
                    && out@[k].relation_id@ == ids@[k]@ && out@[k].created_at == at,
    {
        if n.source_chunk_id == n.target_chunk_id {
            proof {
                assert(!joins_two(all[done@]));
            }
            return Err(failed("A relation's source and target chunk must differ"));
        }
        let found = match live {
            Some(s) => s.contains(&n.target_chunk_id),
            None => false,
        };
        let target_status = if found {
            own("found")
        } else {
            own("missing")
        };
        out.push(
            ChunkRelation {
                relation_id: ids[i].clone(),
                source_chunk_id: n.source_chunk_id,
                target_chunk_id: n.target_chunk_id,
                target_document_id: n.target_document_id,
                relation_type: n.relation_type,
                target_status,
                metadata: n.metadata,
                created_at: at,
            },
        );
        proof {
            done@ = done@ + 1;
        }
        i = i + 1;
    }
    Ok(out)
}

fn fresh_ids(count: usize) -> (r: Vec<String>)
    ensures
        r@.len() == count,
        forall|i: int| 0 <= i < count ==> is_random_uuid((#[trigger] r@[i])@),
{
    let mut out: Vec<String> = Vec::new();
    while out.len() < count
        invariant
            out@.len() <= count,
            forall|i: int| 0 <= i < out@.len() ==> is_random_uuid((#[trigger] out@[i])@),
        decreases count - out.len(),
    {
        out.push(fresh_id());
    }
    out
}

/// The edge is the one that a request asks for, with a fresh id and some time.
pub open spec fn minted(
    e: RelationView,
    n: CreateRelation,
    at: Timestamp,
    live: Option<Set<u64>>,
) -> bool {
    is_random_uuid(e.relation_id) && e == made_edge(n, e.relation_id, at, live)
}

/// The edges are those that a request asks for, in order.
pub open spec fn all_minted(
    edges: Seq<ChunkRelation>,
    new: Seq<CreateRelation>,
    at: Timestamp,
    live: Option<Set<u64>>,
) -> bool {
    &&& edges.len() == new.len()
    &&& forall|i: int| 0 <= i < new.len() ==> #[trigger] minted(edges[i]@, new[i], at, live)
}

/// The edges that a request asks for, with fresh ids, all stamped with the time
/// now. `live` are the chunks that the node knows, if it has indexes.
pub fn mint_relations(new: Vec<CreateRelation>, live: Option<&HashSet<u64>>) -> (r: Result<
    Vec<ChunkRelation>,
    EngineError,
>)
    ensures
        r is Ok <==> forall|i: int| 0 <= i < new@.len() ==> joins_two(#[trigger] new@[i]),
        r matches Err(e) ==> e@ == failure("A relation's source and target chunk must differ"@),
        r matches Ok(edges) ==> exists|at: Timestamp| #[trigger]
            all_minted(edges@, new@, at, live_view(live)),
{
    let ids = fresh_ids(new.len());
    let at = now();
    let ghost all = new@;
    let r = build_relations(new, &ids, at, live);
    proof {
        if r is Ok {
            let edges = r->Ok_0;
            assert forall|i: int| 0 <= i < all.len() implies #[trigger] minted(
                edges@[i]@,
                all[i],
                at,
                live_view(live),
            ) by {
                assert(is_random_uuid(ids@[i]@));
            }
            assert(all_minted(edges@, all, at, live_view(live)));
        }
    }
    r
}

/// The ids of edges.
pub fn relation_ids(edges: &Vec<ChunkRelation>) -> (r: Vec<String>)
    ensures
        text_views(r@) == Seq::new(edges@.len(), |i: int| edges@[i].relation_id@),
{
    let mut out: Vec<String> = Vec::new();
    let mut i: usize = 0;
    while i < edges.len()
        invariant
            i <= edges@.len(),
            out@.len() == i,
            forall|k: int| 0 <= k < i ==> (#[trigger] out@[k])@ == edges@[k].relation_id@,
        decreases edges.len() - i,
    {
        out.push(edges[i].relation_id.clone());
        i = i + 1;
    }
    proof {
        assert(text_views(out@) =~= Seq::new(edges@.len(), |i: int| edges@[i].relation_id@));
    }
    out
}

/// Whether edges that could not be applied after they had become durable are
/// taken back by deleting them from the log.
pub fn takes_back_relations(cloud_mode: bool, edges: usize) -> (r: bool)
    ensures
        r == (cloud_mode && edges > 0),
{
    cloud_mode && edges > 0
}

// ── Laws ────────────────────────────────────────────────────────────────

/// A created edge joins the chunks of the request in the direction asked for, and keeps
/// the rest of what was asked: the document, the type and the metadata.
pub proof fn law_edge_keeps_the_request(
    n: CreateRelation,
    id: Seq<char>,
    at: Timestamp,
    live: Option<Set<u64>>,
)
    ensures
        made_edge(n, id, at, live).relation_id == id,
        made_edge(n, id, at, live).source_chunk_id == n.source_chunk_id,
        made_edge(n, id, at, live).target_chunk_id == n.target_chunk_id,
        n.target_document_id matches Some(d) ==> made_edge(n, id, at, live).target_document_id
            == Some(d@),
        n.target_document_id is None ==> made_edge(n, id, at, live).target_document_id is None,
        made_edge(n, id, at, live).relation_type == n.relation_type@,
        made_edge(n, id, at, live).metadata == n.metadata@,
        made_edge(n, id, at, live).created_at == at,
{
}

/// The target of a created edge is found exactly if the node has indexes and the target
/// is live in them; the source does not matter.
pub proof fn law_status_tells_of_the_target(
    n: CreateRelation,
    id: Seq<char>,
    at: Timestamp,
    live: Set<u64>,
)
    ensures
        live.contains(n.target_chunk_id) ==> made_edge(n, id, at, Some(live)).target_status
            == "found"@,
        !live.contains(n.target_chunk_id) ==> made_edge(n, id, at, Some(live)).target_status
            == "missing"@,
        made_edge(n, id, at, None).target_status == "missing"@,
{
}

/// An edge from a chunk to itself is refused, and every other one is accepted.
pub proof fn law_edges_join_two(n: CreateRelation)
    ensures
        joins_two(n) <==> n.source_chunk_id < n.target_chunk_id || n.target_chunk_id
            < n.source_chunk_id,
{
}

/// The edges of a request come back in its order, each with an id of its own making and
/// with what was asked for.
pub proof fn law_minted_edges_keep_the_request(
    edges: Seq<ChunkRelation>,
    new: Seq<CreateRelation>,
    at: Timestamp,
    live: Option<Set<u64>>,
    i: int,
)
    requires
        all_minted(edges, new, at, live),
        0 <= i < new.len(),
    ensures
        edges.len() == new.len(),
        is_random_uuid(edges[i].relation_id@),
        edges[i].source_chunk_id == new[i].source_chunk_id,
        edges[i].target_chunk_id == new[i].target_chunk_id,
        text_view(edges[i].target_document_id) == text_view(new[i].target_document_id),
        edges[i].relation_type@ == new[i].relation_type@,
        edges[i].metadata@ == new[i].metadata@,
        edges[i].created_at == at,
{
    assert(minted(edges[i]@, new[i], at, live));
}

} // verus!
