//! Ingest: from chunks as they are sent to chunks as they are stored.
use crate::assoc::pairs_map;
use crate::bucket::{expected_dims, space_dims};
use crate::duplicate::{duplicate_text, text_view, Duplicate};
use crate::errors::{failure, EngineError, ErrorView};
use crate::models::{
    chunk_views, ingest_views, vector_view, ChunkView, DocumentChunk, IngestChunk, IngestView,
    SpaceView, VectorSpaceConfig,
};
use crate::relationships::{resolved_parent, RelationshipStore};
use crate::string_map::StringMap;
use crate::text::{decimal, decimal_text, own};
use crate::vectors::{add_vectors, by_space, law_groups_hold_their_vectors, SpaceRows};
use vstd::prelude::*;
use vstd::string::*;

verus! {

/// The space that embeddings without a space name go to.
pub open spec fn default_name(default_space: Option<Seq<char>>) -> Seq<char> {
    match default_space {
        Some(s) => s,
        None => "default"@,
    }
}

/// The space that embeddings without a space name go to.
pub fn default_space_name(default_space: &Option<String>) -> (r: String)
    ensures
        r@ == default_name(text_view(*default_space)),
{
    match default_space {
        Some(s) => s.clone(),
        None => own("default"),
    }
}

/// The ids of the chunks that the caller named; of two chunks with one name the
/// later counts.
pub open spec fn client_ids(chunks: Seq<IngestView>, ids: Seq<u64>) -> Map<Seq<char>, u64>
    decreases chunks.len(),
{
    if chunks.len() == 0 {
        Map::empty()
    } else {
        let before = client_ids(chunks.drop_last(), ids);
        match chunks.last().client_id {
            Some(c) => before.insert(c, ids[chunks.len() - 1]),
            None => before,
        }
    }
}

/// The embeddings that a chunk comes with: those by space, and the one without a
/// space name in the default space, if that has none.
pub open spec fn own_embeddings(c: IngestView, default_space: Seq<char>) -> Map<
    Seq<char>,
    Seq<u32>,
> {
    if c.embedding is Some && !c.embeddings.contains_key(default_space) {
        c.embeddings.insert(default_space, c.embedding->0)
    } else {
        c.embeddings
    }
}

/// The embeddings that a chunk is stored with. One that comes with none gets
/// the built-in one, if that was made and fits the default space.
pub open spec fn stored_embeddings(
    c: IngestView,
    default_space: Seq<char>,
    built_in: Option<Seq<u32>>,
    spaces: Map<Seq<char>, SpaceView>,
    dims: usize,
) -> Map<Seq<char>, Seq<u32>> {
    let given = own_embeddings(c, default_space);
    if given == Map::<Seq<char>, Seq<u32>>::empty() && built_in is Some && built_in->0.len()
        == space_dims(spaces, default_space, dims) {
        given.insert(default_space, built_in->0)
    } else {
        given
    }
}

/// Every embedding has as many components as its space.
pub open spec fn dims_fit(
    embeddings: Map<Seq<char>, Seq<u32>>,
    spaces: Map<Seq<char>, SpaceView>,
    dims: usize,
) -> bool {
    forall|s: Seq<char>| #[trigger]
        embeddings.contains_key(s) ==> embeddings[s].len() == space_dims(spaces, s, dims)
}

/// The error for an embedding with a wrong number of components.
pub open spec fn wrong_dims(i: nat, space: Seq<char>, n: nat, expected: nat) -> ErrorView {
    failure(
        "chunk "@ + decimal(i) + ": embedding for vector space '"@ + space + "' has "@ + decimal(n)
            + " dims, expected "@ + decimal(expected),
    )
}

/// A chunk as it is stored.
pub open spec fn stored_chunk(
    c: IngestView,
    id: u64,
    collection: Seq<char>,
    clients: Map<Seq<char>, u64>,
    embeddings: Map<Seq<char>, Seq<u32>>,
) -> ChunkView {
    ChunkView {
        id,
        collection,
        file_id: c.file_id,
        chunk_index: c.chunk_index,
        page: c.page,
        text: c.text,
        metadata: c.metadata,
        doc_type: c.doc_type,
        parent_id: resolved_parent(clients, c.parent_id, c.parent_ref),
        group_id: c.group_id,
        embeddings,
        embedding: None,
    }
}

/// The embeddings of a list of chunks.
pub open spec fn chunk_items(chunks: Seq<ChunkView>) -> Seq<(u64, Map<Seq<char>, Seq<u32>>)> {
    Seq::new(chunks.len(), |i: int| (chunks[i].id, chunks[i].embeddings))
}

/// A batch of chunks ready to be stored.
#[derive(Debug)]
pub struct IngestBatch {
    pub chunks: Vec<DocumentChunk>,
    /// The ids of the chunks that the caller named.
    pub client_ids: StringMap<u64>,
    /// Each chunk's id, parent and group.
    pub relationships: Vec<(u64, Option<u64>, Option<String>)>,
    /// The vectors by space.
    pub space_vectors: StringMap<SpaceRows>,
}

/// Each chunk's relationship is that of the chunk.
pub open spec fn relationships_of(
    chunks: Seq<ChunkView>,
    rels: Seq<(u64, Option<u64>, Option<String>)>,
) -> bool {
    &&& rels.len() == chunks.len()
    &&& forall|i: int|
        0 <= i < rels.len() ==> (#[trigger] rels[i]).0 == chunks[i].id && rels[i].1
            == chunks[i].parent_id && text_view(rels[i].2) == chunks[i].group_id
}

/// What a list of built-in embeddings says.
pub open spec fn built_in_at(built_in: Seq<Option<Vec<u32>>>, i: int) -> Option<Seq<u32>> {
    if 0 <= i < built_in.len() {
        vector_view(built_in[i])
    } else {
        None
    }
}

/// The embeddings that chunk `i` of a batch is stored with.
pub open spec fn batch_embeddings(
    chunks: Seq<IngestView>,
    built_in: Seq<Option<Vec<u32>>>,
    spaces: Map<Seq<char>, SpaceView>,
    default_space: Option<Seq<char>>,
    dims: usize,
    i: int,
) -> Map<Seq<char>, Seq<u32>> {
    stored_embeddings(
        chunks[i],
        default_name(default_space),
        built_in_at(built_in, i),
        spaces,
        dims,
    )
}

/// The batch is made of the chunks with the ids.
pub open spec fn is_batch_of(
    b: IngestBatch,
    collection: Seq<char>,
    chunks: Seq<IngestView>,
    ids: Seq<u64>,
    built_in: Seq<Option<Vec<u32>>>,
    spaces: Map<Seq<char>, SpaceView>,
    default_space: Option<Seq<char>>,
    dims: usize,
) -> bool {
    &&& b.client_ids@ == client_ids(chunks, ids)
    &&& b.chunks@.len() == chunks.len()
    &&& forall|i: int|
        0 <= i < chunks.len() ==> (#[trigger] b.chunks@[i])@ == stored_chunk(
            chunks[i],
            ids[i],
            collection,
            client_ids(chunks, ids),
            batch_embeddings(chunks, built_in, spaces, default_space, dims, i),
        )
    &&& relationships_of(chunk_views(b.chunks@), b.relationships@)
    &&& by_space(chunk_items(chunk_views(b.chunks@)), b.space_vectors@)
}

/// The stored chunk is the chunk that was sent, as far as storing does not add to it: the
/// same file, position, page, text, metadata, type and group.
pub open spec fn keeps_what_was_sent(stored: DocumentChunk, sent: IngestChunk) -> bool {
    &&& stored.file_id@ == sent.file_id@
    &&& stored.chunk_index == sent.chunk_index
    &&& stored.page == sent.page
    &&& stored.text@ == sent.text@
    &&& stored.metadata@ == sent.metadata@
    &&& stored.doc_type@ == sent.doc_type@
    &&& text_view(stored.group_id) == text_view(sent.group_id)
}

/// Whether the built-in embedder is asked for a chunk: when it comes with no
/// embedding at all.
pub fn needs_embedding(c: &IngestChunk) -> (r: bool)
    ensures
        r == (own_embeddings(c@, default_name(None)) == Map::<Seq<char>, Seq<u32>>::empty()),
        forall|s: Seq<char>|
            r == (#[trigger] own_embeddings(c@, s) == Map::<Seq<char>, Seq<u32>>::empty()),
{
    let r = c.embeddings.is_empty() && c.embedding.is_none();
    proof {
        assert forall|s: Seq<char>|
            r == (#[trigger] own_embeddings(c@, s) == Map::<Seq<char>, Seq<u32>>::empty()) by {
            if c@.embedding is Some {
                let m = own_embeddings(c@, s);
                assert(m.contains_key(s));
                assert(!Map::<Seq<char>, Seq<u32>>::empty().contains_key(s));
            }
        }
    }
    r
}

fn client_map(chunks: &Vec<IngestChunk>, ids: &Vec<u64>) -> (r: StringMap<u64>)
    requires
        ids@.len() == chunks@.len(),
    ensures
        r@ == client_ids(ingest_views(chunks@), ids@),
{
    let mut map: StringMap<u64> = StringMap::new();
    let ghost all = ingest_views(chunks@);
    let mut i: usize = 0;
    proof {
        assert(all.subrange(0, 0) =~= Seq::empty());
    }
    while i < chunks.len()
        invariant
            i <= chunks@.len(),
            ids@.len() == chunks@.len(),
            all == ingest_views(chunks@),
            map@ == client_ids(all.subrange(0, i as int), ids@),
        decreases chunks.len() - i,
    {
        if let Some(c) = &chunks[i].client_id {
            map.insert(c.clone(), ids[i]);
        }
        proof {
            let longer = all.subrange(0, i + 1);
            assert(longer.drop_last() =~= all.subrange(0, i as int));
            assert(longer.last() == all[i as int]);
        }
        i = i + 1;
    }
    proof {
        assert(all.subrange(0, all.len() as int) =~= all);
    }
    map
}

fn resolve_parents(chunks: &Vec<IngestChunk>, clients: &StringMap<u64>) -> (r: Vec<
    (Option<u64>, Option<String>),
>)
    ensures
        r@.len() == chunks@.len(),
        forall|i: int|
            0 <= i < r@.len() ==> (#[trigger] r@[i]).0 == resolved_parent(
                clients@,
                chunks@[i]@.parent_id,
                chunks@[i]@.parent_ref,
            ) && text_view(r@[i].1) == chunks@[i]@.group_id,
{
    let mut parent_ids: Vec<Option<u64>> = Vec::new();
    let mut parent_refs: Vec<Option<String>> = Vec::new();
    let mut group_ids: Vec<Option<String>> = Vec::new();
    let mut i: usize = 0;
    while i < chunks.len()
        invariant
            i <= chunks@.len(),
            parent_ids@.len() == i,
            parent_refs@.len() == i,
            group_ids@.len() == i,
            forall|k: int| 0 <= k < i ==> #[trigger] parent_ids@[k] == chunks@[k]@.parent_id,
            forall|k: int|
                0 <= k < i ==> text_view(#[trigger] parent_refs@[k]) == chunks@[k]@.parent_ref,
            forall|k: int| 0 <= k < i ==> text_view(#[trigger] group_ids@[k]) == chunks@[k]@.group_id,
        decreases chunks.len() - i,
    {
        parent_ids.push(chunks[i].parent_id);
        parent_refs.push(duplicate_text(&chunks[i].parent_ref));
        group_ids.push(duplicate_text(&chunks[i].group_id));
        i = i + 1;
    }
    let r = RelationshipStore::resolve_batch_refs(
        clients,
        parent_ids.as_slice(),
        parent_refs.as_slice(),
        group_ids.as_slice(),
    );
    proof {
        assert forall|i: int| 0 <= i < r@.len() implies (#[trigger] r@[i]).0 == resolved_parent(
            clients@,
            chunks@[i]@.parent_id,
            chunks@[i]@.parent_ref,
        ) && text_view(r@[i].1) == chunks@[i]@.group_id by {
            assert(parent_ids@[i] == chunks@[i]@.parent_id);
            assert(text_view(parent_refs@[i]) == chunks@[i]@.parent_ref);
            assert(text_view(group_ids@[i]) == chunks@[i]@.group_id);
        }
    }
    r
}

fn choose_embeddings(
    c: &IngestChunk,
    default_space: &String,
    built_in: Option<&Vec<u32>>,
    spaces: &StringMap<VectorSpaceConfig>,
    dims: usize,
) -> (r: StringMap<Vec<u32>>)
    ensures
        r@ == stored_embeddings(
            c@,
            default_space@,
            match built_in {
                Some(v) => Some(v@),
                None => None,
            },
            spaces@,
            dims,
        ),
{
    let mut embeddings = c.embeddings.duplicate();
    if let Some(e) = &c.embedding {
        if !embeddings.contains_key(default_space.as_str()) {
            embeddings.insert(default_space.clone(), e.duplicate());
        }
    }
    if embeddings.is_empty() {
        if let Some(e) = built_in {
            if e.len() == expected_dims(spaces, default_space.as_str(), dims) {
                embeddings.insert(default_space.clone(), e.duplicate());
            }
        }
    }
    embeddings
}

fn check_dims(
    i: usize,
    embeddings: &StringMap<Vec<u32>>,
    spaces: &StringMap<VectorSpaceConfig>,
    dims: usize,
) -> (r: Result<(), EngineError>)
    ensures
        r is Ok <==> dims_fit(embeddings@, spaces@, dims),
        r matches Err(e) ==> exists|s: Seq<char>| #[trigger]
            embeddings@.contains_key(s) && embeddings@[s].len() != space_dims(spaces@, s, dims)
                && e@ == wrong_dims(
                i as nat,
                s,
                embeddings@[s].len(),
                space_dims(spaces@, s, dims) as nat,
            ),
{
    let n: usize = embeddings.len();
    let mut k: usize = 0;
    while k < n
        invariant
            n == embeddings.pairs().len(),
            k <= n,
            embeddings@ == pairs_map(embeddings.pairs()),
            forall|j: int|
                0 <= j < k ==> embeddings@[#[trigger] embeddings.key(j)].len() == space_dims(
                    spaces@,
                    embeddings.key(j),
                    dims,
                ),
        decreases n - k,
    {
        let space = embeddings.key_at(k);
        let v = embeddings.value_at(k);
        let expected: usize = expected_dims(spaces, space.as_str(), dims);
        if v.len() != expected {
            let mut s = own("chunk ");
            s.append(decimal_text(i as u64).as_str());
            s.append(": embedding for vector space '");
            s.append(space.as_str());
            s.append("' has ");
            s.append(decimal_text(v.len() as u64).as_str());
            s.append(" dims, expected ");
            s.append(decimal_text(expected as u64).as_str());
            proof {
                assert(embeddings@.contains_key(space@));
            }
            return Err(EngineError::Failed(s));
        }
        k = k + 1;
    }
    proof {
        assert forall|s: Seq<char>| #[trigger] embeddings@.contains_key(s) implies
            embeddings@[s].len() == space_dims(spaces@, s, dims) by {
            let j = choose|j: int|
                0 <= j < embeddings.pairs().len() && (#[trigger] embeddings.pairs()[j]).0 == s;
            assert(embeddings.key(j) == s);
        }
    }
    Ok(())
}

/// Makes the stored form of a batch: parents resolved, embeddings chosen and
/// checked against the dimensions of their spaces, vectors sorted out by space.
/// `built_in[i]` is the built-in embedding of chunk `i`, where one was made.
/// The first chunk with a wrong dimension decides the error, and then nothing
/// of the batch is stored.
pub fn build_batch(
    collection: &str,
    chunks: &Vec<IngestChunk>,
    ids: &Vec<u64>,
    built_in: &Vec<Option<Vec<u32>>>,
    spaces: &StringMap<VectorSpaceConfig>,
    default_space: &Option<String>,
    dims: usize,
) -> (r: Result<IngestBatch, EngineError>)
    requires
        ids@.len() == chunks@.len(),
    ensures
        r is Ok <==> forall|i: int|
            0 <= i < chunks@.len() ==> dims_fit(
                #[trigger] batch_embeddings(
                    ingest_views(chunks@),
                    built_in@,
                    spaces@,
                    text_view(*default_space),
                    dims,
                    i,
                ),
                spaces@,
                dims,
            ),
        r matches Ok(b) ==> is_batch_of(
            b,
            collection@,
            ingest_views(chunks@),
            ids@,
            built_in@,
            spaces@,
            text_view(*default_space),
            dims,
        ),
        r matches Ok(b) ==> forall|i: int|
            0 <= i < chunks@.len() ==> #[trigger] keeps_what_was_sent(b.chunks@[i], chunks@[i])
                && b.chunks@[i].id == ids@[i] && b.chunks@[i].collection@ == collection@,
        r matches Err(e) ==> exists|i: int, s: Seq<char>|
            0 <= i < chunks@.len() && #[trigger] first_misfit(
                ingest_views(chunks@),
                built_in@,
                spaces@,
                text_view(*default_space),
                dims,
                i,
                s,
                e@,
            ),
{
    let default_name_text = default_space_name(default_space);
    let clients = client_map(chunks, ids);
    let resolved = resolve_parents(chunks, &clients);
    let ghost views = ingest_views(chunks@);
    let ghost dv = text_view(*default_space);
    let mut out: Vec<DocumentChunk> = Vec::new();
    let mut rels: Vec<(u64, Option<u64>, Option<String>)> = Vec::new();
    let mut groups: StringMap<SpaceRows> = StringMap::new();
    let mut i: usize = 0;
    proof {
        assert(chunk_items(chunk_views(out@)) =~= Seq::empty());
    }
    while i < chunks.len()
        invariant
            i <= chunks@.len(),
            ids@.len() == chunks@.len(),
            resolved@.len() == chunks@.len(),
            views == ingest_views(chunks@),
            dv == text_view(*default_space),
            default_name_text@ == default_name(dv),
            clients@ == client_ids(views, ids@),
            forall|k: int|
                0 <= k < resolved@.len() ==> (#[trigger] resolved@[k]).0 == resolved_parent(
                    clients@,
                    chunks@[k]@.parent_id,
                    chunks@[k]@.parent_ref,
                ) && text_view(resolved@[k].1) == chunks@[k]@.group_id,
            out@.len() == i,
            forall|k: int|
                0 <= k < i ==> (#[trigger] out@[k])@ == stored_chunk(
                    views[k],
                    ids@[k],
                    collection@,
                    clients@,
                    batch_embeddings(views, built_in@, spaces@, dv, dims, k),
                ),
            forall|k: int|
                0 <= k < i ==> #[trigger] keeps_what_was_sent(out@[k], chunks@[k]) && out@[k].id
                    == ids@[k] && out@[k].collection@ == collection@,
            forall|k: int|
                0 <= k < i ==> dims_fit(
                    #[trigger] batch_embeddings(views, built_in@, spaces@, dv, dims, k),
                    spaces@,
                    dims,
                ),
            relationships_of(chunk_views(out@), rels@),
            by_space(chunk_items(chunk_views(out@)), groups@),
        decreases chunks.len() - i,
    {
        let c = &chunks[i];
        let id: u64 = ids[i];
        let parent: Option<u64> = resolved[i].0;
        let extra: Option<&Vec<u32>> = if i < built_in.len() {
            match &built_in[i] {
                Some(v) => Some(v),
                None => None,
            }
        } else {
            None
        };
        let embeddings = choose_embeddings(c, &default_name_text, extra, spaces, dims);
        let ghost e = batch_embeddings(views, built_in@, spaces@, dv, dims, i as int);
        proof {
            assert(embeddings@ == e);
        }
        match check_dims(i, &embeddings, spaces, dims) {
            Ok(()) => {},
            Err(err) => {
                proof {
                    let s = choose|s: Seq<char>| #[trigger]
                        e.contains_key(s) && e[s].len() != space_dims(spaces@, s, dims) && err@
                            == wrong_dims(
                            i as nat,
                            s,
                            e[s].len(),
                            space_dims(spaces@, s, dims) as nat,
                        );
                    assert(first_misfit(
                        views,
                        built_in@,
                        spaces@,
                        dv,
                        dims,
                        i as int,
                        s,
                        err@,
                    ));
                    assert(!dims_fit(
                        batch_embeddings(views, built_in@, spaces@, dv, dims, i as int),
                        spaces@,
                        dims,
                    ));
                }
                return Err(err);
            },
        }
        let ghost items = chunk_items(chunk_views(out@));
        add_vectors(&mut groups, id, &embeddings, Ghost(items));
        rels.push((id, parent, duplicate_text(&resolved[i].1)));
        let chunk = DocumentChunk {
            id,
            collection: own(collection),
            file_id: c.file_id.clone(),
            chunk_index: c.chunk_index,
            page: c.page,
            text: c.text.clone(),
            metadata: c.metadata.duplicate(),
            doc_type: c.doc_type.clone(),
            parent_id: parent,
            group_id: duplicate_text(&resolved[i].1),
            embeddings,
            embedding: None,
        };
        let ghost earlier = out@;
        out.push(chunk);
        proof {
            assert forall|k: int| 0 <= k < i + 1 implies #[trigger] keeps_what_was_sent(
                out@[k],
                chunks@[k],
            ) && out@[k].id == ids@[k] && out@[k].collection@ == collection@ by {
                if k < i {
                    assert(out@[k] == earlier[k]);
                    assert(keeps_what_was_sent(earlier[k], chunks@[k]));
                }
            }
            assert(chunk_items(chunk_views(out@)) =~= items.push((id, e)));
        }
        i = i + 1;
    }
    Ok(
        IngestBatch {
            chunks: out,
            client_ids: clients,
            relationships: rels,
            space_vectors: groups,
        },
    )
}

/// Chunk `i` is the first of the batch with an embedding of a wrong dimension,
/// space `s` has such a one, and the error says so.
pub open spec fn first_misfit(
    chunks: Seq<IngestView>,
    built_in: Seq<Option<Vec<u32>>>,
    spaces: Map<Seq<char>, SpaceView>,
    default_space: Option<Seq<char>>,
    dims: usize,
    i: int,
    s: Seq<char>,
    e: ErrorView,
) -> bool {
    let mine = batch_embeddings(chunks, built_in, spaces, default_space, dims, i);
    &&& mine.contains_key(s)
    &&& mine[s].len() != space_dims(spaces, s, dims)
    &&& e == wrong_dims(i as nat, s, mine[s].len(), space_dims(spaces, s, dims) as nat)
    &&& forall|j: int|
        0 <= j < i ==> dims_fit(
            #[trigger] batch_embeddings(chunks, built_in, spaces, default_space, dims, j),
            spaces,
            dims,
        )
}

// ── Laws ────────────────────────────────────────────────────────────────

/// A stored chunk keeps what was sent, field by field, under the id assigned to it in the
/// collection it was sent to.
pub proof fn law_stored_chunk_keeps_what_was_sent(
    b: IngestBatch,
    collection: Seq<char>,
    chunks: Seq<IngestView>,
    ids: Seq<u64>,
    built_in: Seq<Option<Vec<u32>>>,
    spaces: Map<Seq<char>, SpaceView>,
    default_space: Option<Seq<char>>,
    dims: usize,
    i: int,
)
    requires
        is_batch_of(b, collection, chunks, ids, built_in, spaces, default_space, dims),
        0 <= i < chunks.len(),
    ensures
        b.chunks@.len() == chunks.len(),
        b.chunks@[i].id == ids[i],
        b.chunks@[i].collection@ == collection,
        b.chunks@[i].file_id@ == chunks[i].file_id,
        b.chunks@[i].chunk_index == chunks[i].chunk_index,
        b.chunks@[i].page == chunks[i].page,
        b.chunks@[i].text@ == chunks[i].text,
        b.chunks@[i].metadata@ == chunks[i].metadata,
        b.chunks@[i].doc_type@ == chunks[i].doc_type,
        text_view(b.chunks@[i].group_id) == chunks[i].group_id,
        b.chunks@[i].embedding is None,
{
    assert(b.chunks@[i]@.embedding is None);
}

/// A chunk that names a parent of the batch by its client id gets the id of that chunk, of
/// the last one where several have the name; one that names none, or one that is not in
/// the batch, keeps the parent that it gives.
pub proof fn law_parents_are_resolved_in_the_batch(
    b: IngestBatch,
    collection: Seq<char>,
    chunks: Seq<IngestView>,
    ids: Seq<u64>,
    built_in: Seq<Option<Vec<u32>>>,
    spaces: Map<Seq<char>, SpaceView>,
    default_space: Option<Seq<char>>,
    dims: usize,
    i: int,
    k: int,
    name: Seq<char>,
)
    requires
        is_batch_of(b, collection, chunks, ids, built_in, spaces, default_space, dims),
        0 <= i < chunks.len(),
    ensures
        chunks[i].parent_ref is None ==> b.chunks@[i].parent_id == chunks[i].parent_id,
        chunks[i].parent_ref == Some(name) && (forall|j: int|
            0 <= j < chunks.len() ==> (#[trigger] chunks[j]).client_id != Some(name))
            ==> b.chunks@[i].parent_id == chunks[i].parent_id,
        chunks[i].parent_ref == Some(name) && 0 <= k < chunks.len() && chunks[k].client_id == Some(
            name,
        ) && (forall|j: int|
            k < j < chunks.len() ==> (#[trigger] chunks[j]).client_id != Some(name))
            ==> b.chunks@[i].parent_id == Some(ids[k]),
{
    assert(b.chunks@[i]@.parent_id == resolved_parent(
        client_ids(chunks, ids),
        chunks[i].parent_id,
        chunks[i].parent_ref,
    ));
    law_client_ids_name_the_chunks(chunks, ids, k, name);
}

/// A batch tells the id of every chunk that the caller named: of the last one where
/// several have the name. No other name is told.
pub proof fn law_client_ids_name_the_chunks(
    chunks: Seq<IngestView>,
    ids: Seq<u64>,
    k: int,
    name: Seq<char>,
)
    ensures
        client_ids(chunks, ids).contains_key(name) <==> exists|j: int|
            0 <= j < chunks.len() && (#[trigger] chunks[j]).client_id == Some(name),
        0 <= k < chunks.len() && chunks[k].client_id == Some(name) && (forall|j: int|
            k < j < chunks.len() ==> (#[trigger] chunks[j]).client_id != Some(name)) ==> client_ids(
            chunks,
            ids,
        )[name] == ids[k],
    decreases chunks.len(),
{
    if chunks.len() > 0 {
        let init = chunks.drop_last();
        law_client_ids_name_the_chunks(init, ids, k, name);
        if exists|j: int| 0 <= j < init.len() && (#[trigger] init[j]).client_id == Some(name) {
            let j = choose|j: int| 0 <= j < init.len() && (#[trigger] init[j]).client_id == Some(
                name,
            );
            assert(chunks[j].client_id == Some(name));
        }
        if chunks.last().client_id == Some(name) {
            assert(chunks[chunks.len() - 1].client_id == Some(name));
        }
        if exists|j: int| 0 <= j < chunks.len() && (#[trigger] chunks[j]).client_id == Some(name) {
            let j = choose|j: int|
                0 <= j < chunks.len() && (#[trigger] chunks[j]).client_id == Some(name);
            if j < init.len() {
                assert(init[j].client_id == Some(name));
            }
        }
        if 0 <= k < chunks.len() && chunks[k].client_id == Some(name) && (forall|j: int|
            k < j < chunks.len() ==> (#[trigger] chunks[j]).client_id != Some(name)) {
            if k < init.len() {
                assert(init[k] == chunks[k]);
                assert(chunks[chunks.len() - 1].client_id != Some(name));
                assert forall|j: int| k < j < init.len() implies (#[trigger] init[j]).client_id
                    != Some(name) by {
                    assert(chunks[j].client_id != Some(name));
                }
            }
        }
    }
}

/// A chunk keeps every embedding that it comes with under its space. One without a space
/// goes to the default space, unless that has one; the built-in one is used only where
/// the chunk comes with none at all, and only if it fits.
pub proof fn law_given_embeddings_are_kept(
    c: IngestView,
    default_space: Seq<char>,
    built_in: Option<Seq<u32>>,
    spaces: Map<Seq<char>, SpaceView>,
    dims: usize,
    s: Seq<char>,
)
    ensures
        ({
            let stored = stored_embeddings(c, default_space, built_in, spaces, dims);
            &&& c.embeddings.contains_key(s) ==> stored.contains_key(s) && stored[s]
                == c.embeddings[s]
            &&& c.embedding is Some && !c.embeddings.contains_key(default_space)
                ==> stored.contains_key(default_space) && stored[default_space] == c.embedding->0
            &&& s != default_space && !c.embeddings.contains_key(s) ==> !stored.contains_key(s)
            &&& c.embedding is None && !c.embeddings.contains_key(default_space)
                && stored.contains_key(default_space) ==> built_in is Some
                && stored[default_space] == built_in->0 && forall|t: Seq<char>|
                !c.embeddings.contains_key(t)
            &&& c.embedding is None && (forall|t: Seq<char>| !c.embeddings.contains_key(t))
                && built_in is Some && built_in->0.len() == space_dims(spaces, default_space, dims)
                ==> stored.contains_key(default_space) && stored[default_space] == built_in->0
        }),
{
    if forall|t: Seq<char>| !c.embeddings.contains_key(t) {
        assert(c.embeddings =~= Map::empty());
    }
    let given = own_embeddings(c, default_space);
    if given == Map::<Seq<char>, Seq<u32>>::empty() {
        assert forall|t: Seq<char>| !c.embeddings.contains_key(t) by {
            assert(!given.contains_key(t));
        }
    }
}

/// A batch is refused exactly for an embedding with another number of components than its
/// space: the configured number, or the collection's where the space is not listed.
pub proof fn law_dims_fit_means_equal_lengths(
    embeddings: Map<Seq<char>, Seq<u32>>,
    spaces: Map<Seq<char>, SpaceView>,
    dims: usize,
    s: Seq<char>,
)
    requires
        embeddings.contains_key(s),
    ensures
        dims_fit(embeddings, spaces, dims) && spaces.contains_key(s) ==> embeddings[s].len()
            == spaces[s].dims,
        dims_fit(embeddings, spaces, dims) && !spaces.contains_key(s) ==> embeddings[s].len()
            == dims,
        embeddings[s].len() != (if spaces.contains_key(s) {
            spaces[s].dims
        } else {
            dims
        }) ==> !dims_fit(embeddings, spaces, dims),
{
}

/// Every chunk of a batch is indexed as it is stored: its relationship has its id, parent
/// and group, and each of its embeddings is among the vectors of the space, under its id.
pub proof fn law_batch_is_indexed_as_stored(
    b: IngestBatch,
    collection: Seq<char>,
    chunks: Seq<IngestView>,
    ids: Seq<u64>,
    built_in: Seq<Option<Vec<u32>>>,
    spaces: Map<Seq<char>, SpaceView>,
    default_space: Option<Seq<char>>,
    dims: usize,
    i: int,
    s: Seq<char>,
)
    requires
        is_batch_of(b, collection, chunks, ids, built_in, spaces, default_space, dims),
        0 <= i < chunks.len(),
    ensures
        b.relationships@.len() == chunks.len(),
        b.relationships@[i].0 == ids[i],
        b.relationships@[i].1 == b.chunks@[i].parent_id,
        text_view(b.relationships@[i].2) == chunks[i].group_id,
        b.chunks@[i].embeddings@.contains_key(s) ==> b.space_vectors@.contains_key(s)
            && b.space_vectors@[s].contains((ids[i], b.chunks@[i].embeddings@[s])),
        b.chunks@[i].embeddings@ == batch_embeddings(
            chunks,
            built_in,
            spaces,
            default_space,
            dims,
            i,
        ),
{
    let stored = chunk_views(b.chunks@);
    let items = chunk_items(stored);
    assert(stored[i] == b.chunks@[i]@);
    assert(items[i].0 == ids[i]);
    assert(items[i].1 == b.chunks@[i].embeddings@);
    assert(b.relationships@[i].0 == stored[i].id);
    law_groups_hold_their_vectors(items, b.space_vectors@, s, i, 0);
}

/// Embeddings without a space go to the collection's default space, or to `default`.
pub proof fn law_default_space_is_the_collections(name: Seq<char>)
    ensures
        default_name(Some(name)) == name,
        default_name(None) == "default"@,
{
}

/// Each chunk of a batch is stored with the embeddings that it was sent with, and where it was
/// sent with none, with the built-in one made for it, if that fits the default space.
pub proof fn law_batch_embeddings_are_the_chunks_own(
    b: IngestBatch,
    collection: Seq<char>,
    chunks: Seq<IngestView>,
    ids: Seq<u64>,
    built_in: Seq<Option<Vec<u32>>>,
    spaces: Map<Seq<char>, SpaceView>,
    default_space: Seq<char>,
    dims: usize,
    i: int,
    s: Seq<char>,
)
    requires
        is_batch_of(b, collection, chunks, ids, built_in, spaces, Some(default_space), dims),
        0 <= i < chunks.len(),
    ensures
        chunks[i].embeddings.contains_key(s) ==> b.chunks@[i].embeddings@.contains_key(s)
            && b.chunks@[i].embeddings@[s] == chunks[i].embeddings[s],
        chunks[i].embedding is Some && !chunks[i].embeddings.contains_key(default_space)
            ==> b.chunks@[i].embeddings@.contains_key(default_space)
            && b.chunks@[i].embeddings@[default_space] == chunks[i].embedding->0,
        chunks[i].embedding is None && (forall|t: Seq<char>|
            !chunks[i].embeddings.contains_key(t)) && i < built_in.len() ==> (
        built_in[i] matches Some(v) ==> (v@.len() == space_dims(spaces, default_space, dims)
            ==> b.chunks@[i].embeddings@.contains_key(default_space)
            && b.chunks@[i].embeddings@[default_space] == v@)),
        chunks[i].embedding is None && (forall|t: Seq<char>|
            !chunks[i].embeddings.contains_key(t)) && (i >= built_in.len() || built_in[i] is None)
            ==> !b.chunks@[i].embeddings@.contains_key(s),
{
    law_given_embeddings_are_kept(
        chunks[i],
        default_space,
        built_in_at(built_in, i),
        spaces,
        dims,
        s,
    );
    assert(b.chunks@[i]@.embeddings == b.chunks@[i].embeddings@);
}

/// What a stored chunk keeps of a chunk that was sent is told field by field.
pub proof fn law_kept_fields(stored: DocumentChunk, sent: IngestChunk)
    requires
        keeps_what_was_sent(stored, sent),
    ensures
        stored.file_id@ == sent.file_id@ && stored.chunk_index == sent.chunk_index,
        stored.page == sent.page && stored.text@ == sent.text@,
        stored.metadata@ == sent.metadata@ && stored.doc_type@ == sent.doc_type@,
        sent.group_id is None ==> stored.group_id is None,
        sent.group_id matches Some(g) ==> (stored.group_id matches Some(h) && h@ == g@),
{
}

/// A batch is refused for its first chunk with an embedding of another width than its space
/// has, and the error gives the chunk's place in the batch, the space and both widths.
pub proof fn law_refused_batch_names_the_misfit(
    chunks: Seq<IngestView>,
    built_in: Seq<Option<Vec<u32>>>,
    spaces: Map<Seq<char>, SpaceView>,
    default_space: Option<Seq<char>>,
    dims: usize,
    i: int,
    s: Seq<char>,
    e: ErrorView,
    j: int,
)
    requires
        first_misfit(chunks, built_in, spaces, default_space, dims, i, s, e),
    ensures
        ({
            let mine = batch_embeddings(chunks, built_in, spaces, default_space, dims, i);
            &&& mine.contains_key(s) && mine[s].len() != space_dims(spaces, s, dims)
            &&& !dims_fit(mine, spaces, dims)
            &&& e.text == "chunk "@ + decimal(i as nat) + ": embedding for vector space '"@ + s
                + "' has "@ + decimal(mine[s].len()) + " dims, expected "@ + decimal(
                space_dims(spaces, s, dims) as nat,
            )
            &&& !e.not_found
        }),
        0 <= j < i ==> dims_fit(
            batch_embeddings(chunks, built_in, spaces, default_space, dims, j),
            spaces,
            dims,
        ),
{
}

} // verus!
