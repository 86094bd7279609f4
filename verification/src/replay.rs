//! Bringing a node's copy of a collection up to date: replaying log fragments,
//! and rebuilding it from the store.
use crate::assoc::{
    distinct_keys, has_key, lemma_filter_contains, lemma_filter_push, lemma_pairs_at, pairs_map,
};
use crate::bucket::{expected_dims, space_dims, BucketConfig, BucketView};
use crate::clock::now;
use crate::create::is_default_choice;
use crate::duplicate::duplicate_text;
use crate::ids::{next_free_id, next_id_after, IdPool};
use crate::ingest::{chunk_items, dims_fit, relationships_of};
use crate::loaded::{ids_of, with_all, LoadedCollection};
use crate::lsm::{keyed_by_id, LiveView, Materialized};
use crate::models::{
    chunk_views, ChunkView, Collection, CollectionConfig, CollectionView, ConfigView, DocumentChunk,
    SpaceView, Timestamp, VectorSpaceConfig,
};
use crate::relationships::{groups_exact, RelationshipStore, RelationshipView};
use crate::seq_tracker::SeqTracker;
use crate::string_map::StringMap;
use crate::text::own;
use crate::vectors::{add_vectors, by_space, vectors_in, SpaceRows};
use std::collections::HashSet;
use vstd::prelude::*;
use vstd::string::*;

verus! {

broadcast use vstd::std_specs::hash::group_hash_axioms;

/// The chunk is not known here, neither as live nor as deleted.
pub open spec fn is_unknown(live: Set<u64>, dead: Set<u64>, c: DocumentChunk) -> bool {
    !live.contains(c.id) && !dead.contains(c.id)
}

/// The chunk is not known here, and its embeddings fit.
pub open spec fn is_fresh(
    live: Set<u64>,
    dead: Set<u64>,
    spaces: Map<Seq<char>, SpaceView>,
    dims: usize,
) -> spec_fn(DocumentChunk) -> bool {
    |c: DocumentChunk| is_unknown(live, dead, c) && dims_fit(c.embeddings@, spaces, dims)
}

/// The chunk is not known here, but an embedding of it does not fit.
pub open spec fn is_misfit(
    live: Set<u64>,
    dead: Set<u64>,
    spaces: Map<Seq<char>, SpaceView>,
    dims: usize,
) -> spec_fn(DocumentChunk) -> bool {
    |c: DocumentChunk| is_unknown(live, dead, c) && !dims_fit(c.embeddings@, spaces, dims)
}

/// The part of a data fragment that a node has to apply.
#[derive(Debug)]
pub struct ReplayBatch {
    pub chunks: Vec<DocumentChunk>,
    /// Each chunk's id, parent and group.
    pub relationships: Vec<(u64, Option<u64>, Option<String>)>,
    /// The vectors by space.
    pub space_vectors: StringMap<SpaceRows>,
    /// Chunks that are left out because an embedding does not fit its space.
    pub quarantined: Vec<u64>,
}

fn embeddings_fit(
    embeddings: &StringMap<Vec<u32>>,
    spaces: &StringMap<VectorSpaceConfig>,
    dims: usize,
) -> (r: bool)
    ensures
        r == dims_fit(embeddings@, spaces@, dims),
{
    let n: usize = embeddings.len();
    let mut k: usize = 0;
    while k < n
        invariant
            n == embeddings.pairs().len(),
            k <= n,
            embeddings@ == pairs_map(embeddings.pairs()),
            forall|j: int|
                0 <= j < k ==> embeddings@[#[trigger] embeddings.key(j)].len() == space_dims(
                    spaces@,
                    embeddings.key(j),
                    dims,
                ),
        decreases n - k,
    {
        let space = embeddings.key_at(k);
        let v = embeddings.value_at(k);
        if v.len() != expected_dims(spaces, space.as_str(), dims) {
            proof {
                assert(embeddings@.contains_key(space@));
            }
            return false;
        }
        k = k + 1;
    }
    proof {
        assert forall|s: Seq<char>| #[trigger] embeddings@.contains_key(s) implies
            embeddings@[s].len() == space_dims(spaces@, s, dims) by {
            let j = choose|j: int|
                0 <= j < embeddings.pairs().len() && (#[trigger] embeddings.pairs()[j]).0 == s;
            assert(embeddings.key(j) == s);
        }
    }
    true
}

/// Picks the chunks of a data fragment that a node has to apply. Chunks that it
/// knows already are passed over, so that a fragment can be replayed any number
/// of times; chunks with an embedding that does not fit are left out, since one
/// such vector would shift every vector after it.
pub fn replay_data(loaded: &LoadedCollection, chunks: Vec<DocumentChunk>) -> (r: ReplayBatch)
    ensures
        r.chunks@ == chunks@.filter(
            is_fresh(
                loaded.live@,
                loaded.tombstones@,
                loaded.metadata.vector_spaces@,
                loaded.metadata.embedding_dims,
            ),
        ),
        r.quarantined@ == ids_of(
            chunks@.filter(
                is_misfit(
                    loaded.live@,
                    loaded.tombstones@,
                    loaded.metadata.vector_spaces@,
                    loaded.metadata.embedding_dims,
                ),
            ),
        ),
        relationships_of(chunk_views(r.chunks@), r.relationships@),
        by_space(chunk_items(chunk_views(r.chunks@)), r.space_vectors@),
{
    let spaces = &loaded.metadata.vector_spaces;
    let dims: usize = loaded.metadata.embedding_dims;
    let ghost all = chunks@;
    let ghost fresh = is_fresh(loaded.live@, loaded.tombstones@, spaces@, dims);
    let ghost misfit = is_misfit(loaded.live@, loaded.tombstones@, spaces@, dims);
    let mut out: Vec<DocumentChunk> = Vec::new();
    let mut rels: Vec<(u64, Option<u64>, Option<String>)> = Vec::new();
    let mut groups: StringMap<SpaceRows> = StringMap::new();
    let mut quarantined: Vec<u64> = Vec::new();
    let mut done: Ghost<int> = Ghost(0);
    proof {
        reveal(Seq::filter);
        assert(all.subrange(0, 0) =~= Seq::empty());
        assert(quarantined@ =~= ids_of(Seq::empty()));
        assert(chunk_items(chunk_views(out@)) =~= Seq::empty());
    }
    for c in it: chunks
        invariant
            it.seq() == all,
            done@ == it.index(),
            0 <= done@ <= all.len(),
            spaces == &loaded.metadata.vector_spaces,
            dims == loaded.metadata.embedding_dims,
            fresh == is_fresh(loaded.live@, loaded.tombstones@, spaces@, dims),
            misfit == is_misfit(loaded.live@, loaded.tombstones@, spaces@, dims),
            out@ == all.subrange(0, done@).filter(fresh),
            quarantined@ == ids_of(all.subrange(0, done@).filter(misfit)),
            relationships_of(chunk_views(out@), rels@),
            by_space(chunk_items(chunk_views(out@)), groups@),
    {
        proof {
            let shorter = all.subrange(0, done@);
            assert(all.subrange(0, done@ + 1) =~= shorter.push(c));
            lemma_filter_push(shorter, c, fresh);
            lemma_filter_push(shorter, c, misfit);
            done@ = done@ + 1;
        }
        let known = loaded.live.contains(&c.id) || loaded.tombstones.contains(&c.id);
        if !known {
            if embeddings_fit(&c.embeddings, spaces, dims) {
                let ghost items = chunk_items(chunk_views(out@));
                add_vectors(&mut groups, c.id, &c.embeddings, Ghost(items));
                rels.push((c.id, c.parent_id, duplicate_text(&c.group_id)));
                let ghost view = c@;
                out.push(c);
                proof {
                    assert(chunk_items(chunk_views(out@)) =~= items.push(
                        (view.id, view.embeddings),
                    ));
                }
            } else {
                let ghost before = all.subrange(0, done@ - 1).filter(misfit);
                quarantined.push(c.id);
                proof {
                    assert(quarantined@ =~= ids_of(before.push(c)));
                }
            }
        }
    }
    proof {
        assert(all.subrange(0, all.len() as int) =~= all);
    }
    ReplayBatch { chunks: out, relationships: rels, space_vectors: groups, quarantined }
}

// ── Rebuilding from the store ───────────────────────────────────────────

/// Vector spaces told from the embeddings of live chunks: each space that a
/// chunk has an embedding in, with the dimensions of such an embedding; one
/// named "default" when there are none.
pub open spec fn inferred(
    chunks: Map<u64, ChunkView>,
    spaces: Map<Seq<char>, SpaceView>,
) -> bool {
    if exists|id: u64, s: Seq<char>| #[trigger] has_embedding(chunks, id, s) {
        &&& forall|s: Seq<char>| #[trigger]
            spaces.contains_key(s) <==> exists|id: u64| #[trigger] has_embedding(chunks, id, s)
        &&& forall|s: Seq<char>| #[trigger]
            spaces.contains_key(s) ==> exists|id: u64| #[trigger]
                has_embedding(chunks, id, s) && spaces[s] == recovered(
                    chunks[id].embeddings[s].len() as usize,
                )
    } else {
        spaces == Map::<Seq<char>, SpaceView>::empty().insert("default"@, recovered(384))
    }
}

/// The chunk has an embedding in the space.
pub open spec fn has_embedding(chunks: Map<u64, ChunkView>, id: u64, s: Seq<char>) -> bool {
    chunks.contains_key(id) && chunks[id].embeddings.contains_key(s)
}

/// A vector space that was told from an embedding.
pub open spec fn recovered(dims: usize) -> SpaceView {
    SpaceView { dims, model: "recovered"@, status: "active"@ }
}

fn recovered_space(dims: usize) -> (r: VectorSpaceConfig)
    ensures
        r@ == recovered(dims),
{
    VectorSpaceConfig { dims, model: own("recovered"), status: own("active") }
}

fn infer_spaces(live: &Materialized) -> (r: StringMap<VectorSpaceConfig>)
    ensures
        inferred(live@.chunks, r@),
{
    let mut spaces: StringMap<VectorSpaceConfig> = StringMap::new();
    let n: usize = live.chunks.len();
    let mut i: usize = 0;
    while i < n
        invariant
            n == live.chunks.pairs().len(),
            i <= n,
            live.chunks@ == pairs_map(live.chunks.pairs()),
            distinct_keys(live.chunks.pairs()),
            forall|s: Seq<char>| #[trigger]
                spaces@.contains_key(s) <==> exists|j: int|
                    0 <= j < i && (#[trigger] live.chunks.pairs()[j]).1.embeddings.contains_key(s),
            forall|s: Seq<char>| #[trigger]
                spaces@.contains_key(s) ==> exists|id: u64| #[trigger]
                    has_embedding(live.chunks@, id, s) && spaces@[s] == recovered(
                        live.chunks@[id].embeddings[s].len() as usize,
                    ),
        decreases n - i,
    {
        let c = live.chunks.value_at(i);
        let ghost id = live.chunks.pairs()[i as int].0;
        let m: usize = c.embeddings.len();
        let mut k: usize = 0;
        let ghost before = spaces@;
        while k < m
            invariant
                i < n,
                n == live.chunks.pairs().len(),
                live.chunks@ == pairs_map(live.chunks.pairs()),
                m == c.embeddings.pairs().len(),
                c.embeddings@ == pairs_map(c.embeddings.pairs()),
                distinct_keys(c.embeddings.pairs()),
                k <= m,
                c@ == live.chunks.pairs()[i as int].1,
                id == live.chunks.pairs()[i as int].0,
                live.chunks@.contains_key(id),
                live.chunks@[id] == c@,
                forall|s: Seq<char>| #[trigger]
                    spaces@.contains_key(s) <==> before.contains_key(s) || exists|j: int|
                        0 <= j < k && (#[trigger] c.embeddings.pairs()[j]).0 == s,
                forall|s: Seq<char>| #[trigger]
                    spaces@.contains_key(s) ==> exists|id: u64| #[trigger]
                        has_embedding(live.chunks@, id, s) && spaces@[s] == recovered(
                            live.chunks@[id].embeddings[s].len() as usize,
                        ),
            decreases m - k,
        {
            let space = c.embeddings.key_at(k);
            let v = c.embeddings.value_at(k);
            let ghost earlier = spaces@;
            if !spaces.contains_key(space.as_str()) {
                spaces.insert(space.clone(), recovered_space(v.len()));
                proof {
                    assert(has_embedding(live.chunks@, id, space@));
                }
            }
            proof {
                assert(c.embeddings.pairs()[k as int].0 == space@);
                assert forall|s: Seq<char>| #[trigger] spaces@.contains_key(s) implies exists|
                    id: u64,
                | #[trigger]
                    has_embedding(live.chunks@, id, s) && spaces@[s] == recovered(
                        live.chunks@[id].embeddings[s].len() as usize,
                    ) by {
                    if earlier.contains_key(s) {
                        let w = choose|w: u64| #[trigger]
                            has_embedding(live.chunks@, w, s) && earlier[s] == recovered(
                                live.chunks@[w].embeddings[s].len() as usize,
                            );
                        assert(has_embedding(live.chunks@, w, s));
                    } else {
                        assert(has_embedding(live.chunks@, id, s));
                    }
                }
            }
            k = k + 1;
        }
        proof {
            assert forall|s: Seq<char>| #[trigger]
                spaces@.contains_key(s) <==> exists|j: int|
                    0 <= j < i + 1 && (#[trigger]
                    live.chunks.pairs()[j]).1.embeddings.contains_key(s) by {
                if c.embeddings@.contains_key(s) {
                    let j = choose|j: int|
                        0 <= j < c.embeddings.pairs().len() && (#[trigger]
                        c.embeddings.pairs()[j]).0 == s;
                    assert(live.chunks.pairs()[i as int].1.embeddings.contains_key(s));
                }
                if spaces@.contains_key(s) && !before.contains_key(s) {
                    let j = choose|j: int|
                        0 <= j < m && (#[trigger] c.embeddings.pairs()[j]).0 == s;
                    lemma_pairs_at(c.embeddings.pairs(), j);
                    assert(live.chunks.pairs()[i as int].1.embeddings.contains_key(s));
                }
            }
        }
        i = i + 1;
    }
    proof {
        let chunks = live.chunks@;
        assert forall|s: Seq<char>| #[trigger]
            spaces@.contains_key(s) <==> exists|id: u64| #[trigger] has_embedding(chunks, id, s) by {
            if exists|id: u64| #[trigger] has_embedding(chunks, id, s) {
                let id = choose|id: u64| #[trigger] has_embedding(chunks, id, s);
                let j = choose|j: int|
                    0 <= j < live.chunks.pairs().len() && (#[trigger] live.chunks.pairs()[j]).0
                        == id;
                lemma_pairs_at(live.chunks.pairs(), j);
                assert(live.chunks.pairs()[j].1.embeddings.contains_key(s));
            }
        }
    }
    if spaces.is_empty() {
        proof {
            assert forall|id: u64, s: Seq<char>| !#[trigger] has_embedding(live.chunks@, id, s) by {
                if has_embedding(live.chunks@, id, s) {
                    assert(spaces@.contains_key(s));
                }
            }
        }
        spaces.insert(own("default"), recovered_space(384));
    } else {
        proof {
            assert(exists|s: Seq<char>| spaces@.contains_key(s)) by {
                if forall|s: Seq<char>| !spaces@.contains_key(s) {
                    assert(spaces@ =~= Map::<Seq<char>, SpaceView>::empty());
                }
            }
            let s = choose|s: Seq<char>| spaces@.contains_key(s);
            let id = choose|id: u64| #[trigger] has_embedding(live.chunks@, id, s);
            assert(has_embedding(live.chunks@, id, s));
        }
    }
    spaces
}

/// The metadata of a collection rebuilt from the store: configured as object
/// storage says, else as its embeddings tell.
pub open spec fn is_rebuilt(
    c: CollectionView,
    name: Seq<char>,
    cfg: Option<BucketView>,
    live: LiveView,
    next_seq: u64,
    now: Timestamp,
) -> bool {
    &&& c.name == name
    &&& c.chunk_count == live.chunks.dom().len()
    &&& c.next_id == next_free_id(live.max_id, live.assigned)
    &&& c.applied_seq == next_seq
    &&& match cfg {
        Some(b) => {
            &&& c.created_at == b.created_at
            &&& c.vector_spaces == b.vector_spaces
            &&& c.default_vector_space == b.default_vector_space
            &&& c.embedding_dims == b.embedding_dims
            &&& c.config == b.config
        },
        None => {
            &&& c.created_at == now
            &&& inferred(live.chunks, c.vector_spaces)
            &&& is_default_choice(c.vector_spaces, c.default_vector_space, c.embedding_dims)
            &&& c.config == (ConfigView { embed_model: Seq::empty(), partition_by: None })
        },
    }
}

/// What an optional configuration says.
pub open spec fn bucket_view(c: Option<BucketConfig>) -> Option<BucketView> {
    match c {
        Some(b) => Some(b@),
        None => None,
    }
}

/// The metadata of a collection rebuilt from the store.
pub fn rebuilt_metadata(
    name: &str,
    cfg: Option<BucketConfig>,
    live: &Materialized,
    next_seq: u64,
    now: Timestamp,
) -> (r: Collection)
    requires
        live.max_id < u64::MAX,
    ensures
        is_rebuilt(r@, name@, bucket_view(cfg), live@, next_seq, now),
        live@.chunks.dom().finite(),
{
    let live_count: usize = live.chunks.len();
    let next_id: u64 = next_id_after(live.max_id, live.assigned);
    match cfg {
        Some(b) => {
            Collection {
                name: own(name),
                created_at: b.created_at,
                vector_spaces: b.vector_spaces,
                default_vector_space: b.default_vector_space,
                embedding_dims: b.embedding_dims,
                chunk_count: live_count as u64,
                next_id,
                config: b.config,
                applied_seq: next_seq,
            }
        },
        None => {
            let spaces = infer_spaces(live);
            let (default_space, dims): (Option<String>, usize) = if spaces.is_empty() {
                (None, 384)
            } else {
                (Some(spaces.key_at(0).clone()), spaces.value_at(0).dims)
            };
            Collection {
                name: own(name),
                created_at: now,
                vector_spaces: spaces,
                default_vector_space: default_space,
                embedding_dims: dims,
                chunk_count: live_count as u64,
                next_id,
                config: CollectionConfig::default(),
                applied_seq: next_seq,
            }
        },
    }
}

/// The metadata of a collection rebuilt from the store now.
pub fn rebuilt_metadata_now(
    name: &str,
    cfg: Option<BucketConfig>,
    live: &Materialized,
    next_seq: u64,
) -> (r: Collection)
    requires
        live.max_id < u64::MAX,
    ensures
        is_rebuilt(r@, name@, bucket_view(cfg), live@, next_seq, r.created_at),
{
    let at = now();
    rebuilt_metadata(name, cfg, live, next_seq, at)
}

/// Each live chunk's parent and group.
pub open spec fn chunk_relationships(chunks: Map<u64, ChunkView>) -> Map<u64, RelationshipView> {
    Map::new(
        |id: u64| chunks.contains_key(id),
        |id: u64|
            RelationshipView { parent_id: chunks[id].parent_id, group_id: chunks[id].group_id },
    )
}

/// A collection rebuilt from the store, with everything in the store applied.
pub fn rebuilt_collection(metadata: Collection, live: &Materialized, tick: u64) -> (r:
    LoadedCollection)
    requires
        keyed_by_id(live@),
    ensures
        r.metadata == metadata,
        r.last_used == tick,
        r.next_id == metadata.next_id,
        r.hnsw_unsaved@ == Map::<Seq<char>, u32>::empty(),
        r.id_pool@ == Seq::<u64>::empty(),
        r.applied.contiguous == metadata.applied_seq,
        r.applied.out_of_band@ == Set::<u64>::empty(),
        r.tombstones@ == Set::<u64>::empty(),
        r.live@ == live@.chunks.dom(),
        r.relationships@.forward == chunk_relationships(live@.chunks),
        groups_exact(r.relationships@),
        r.wf(),
        metadata.chunk_count == live@.chunks.dom().len() ==> r.counted(),
{
    let n: usize = live.chunks.len();
    let mut relationships = RelationshipStore::new();
    let mut ids: HashSet<u64> = HashSet::new();
    let ghost pairs = live.chunks.pairs();
    let mut i: usize = 0;
    proof {
        assert(chunk_relationships(pairs_map(pairs.subrange(0, 0))) =~= Map::empty());
        assert(pairs_map(pairs.subrange(0, 0)).dom() =~= Set::empty());
    }
    while i < n
        invariant
            n == live.chunks.pairs().len(),
            pairs == live.chunks.pairs(),
            i <= n,
            keyed_by_id(live@),
            live.chunks@ == pairs_map(pairs),
            distinct_keys(pairs),
            relationships@.forward == chunk_relationships(pairs_map(pairs.subrange(0, i as int))),
            groups_exact(relationships@),
            ids@ == pairs_map(pairs.subrange(0, i as int)).dom(),
        decreases n - i,
    {
        let c = live.chunks.value_at(i);
        let ghost id = pairs[i as int].0;
        proof {
            lemma_pairs_at(pairs, i as int);
            assert(live@.chunks.contains_key(id));
            assert(c.id == id);
            let shorter = pairs.subrange(0, i as int);
            let longer = pairs.subrange(0, i + 1);
            assert forall|a: int, b: int| 0 <= a < b < shorter.len() implies (
            #[trigger] shorter[a]).0 != (#[trigger] shorter[b]).0 by {
                assert(pairs[a].0 != pairs[b].0);
            }
            assert(!crate::assoc::has_key(shorter, id)) by {
                if crate::assoc::has_key(shorter, id) {
                    let a = choose|a: int| 0 <= a < shorter.len() && (#[trigger] shorter[a]).0 == id;
                    assert(pairs[a].0 != pairs[i as int].0);
                }
            }
            crate::assoc::lemma_pairs_insert(shorter, i as int, id, pairs[i as int].1);
            assert(shorter.insert(i as int, pairs[i as int]) =~= longer);
        }
        let ghost before = relationships@;
        relationships.add(c.id, c.parent_id, duplicate_text(&c.group_id));
        ids.insert(c.id);
        proof {
            let longer = pairs.subrange(0, i + 1);
            assert(relationships@.forward =~= chunk_relationships(pairs_map(longer)));
            assert(ids@ =~= pairs_map(longer).dom());
        }
        i = i + 1;
    }
    proof {
        assert(pairs.subrange(0, n as int) =~= pairs);
    }
    let next_id: u64 = metadata.next_id;
    let applied = SeqTracker::starting_at(metadata.applied_seq);
    LoadedCollection {
        metadata,
        hnsw_unsaved: StringMap::new(),
        last_used: tick,
        applied,
        id_pool: IdPool::new(),
        relationships,
        tombstones: HashSet::new(),
        next_id,
        live: ids,
    }
}

fn live_vectors(live: &Materialized) -> (r: StringMap<SpaceRows>)
    ensures
        by_space(live_items(live.chunks.pairs()), r@),
        live@.chunks == pairs_map(live.chunks.pairs()),
{
    let n: usize = live.chunks.len();
    let ghost items = live_items(live.chunks.pairs());
    let mut groups: StringMap<SpaceRows> = StringMap::new();
    let mut i: usize = 0;
    proof {
        assert(items.subrange(0, 0) =~= Seq::empty());
    }
    while i < n
        invariant
            n == live.chunks.pairs().len(),
            i <= n,
            items == live_items(live.chunks.pairs()),
            by_space(items.subrange(0, i as int), groups@),
        decreases n - i,
    {
        let c = live.chunks.value_at(i);
        let id: u64 = live.chunks.key_at(i);
        add_vectors(&mut groups, id, &c.embeddings, Ghost(items.subrange(0, i as int)));
        proof {
            assert(items.subrange(0, i + 1) =~= items.subrange(0, i as int).push(
                (id, c@.embeddings),
            ));
        }
        i = i + 1;
    }
    proof {
        assert(items.subrange(0, n as int) =~= items);
    }
    groups
}

/// The vectors of a rebuilt collection: of each configured space those that live
/// chunks have in it, in order of the ids. Vectors in any other space, such as one that
/// was removed, are left out.
pub fn rebuilt_vectors(live: &Materialized, spaces: &StringMap<VectorSpaceConfig>) -> (r:
    StringMap<SpaceRows>)
    ensures
        r@.dom() == spaces@.dom(),
        forall|s: Seq<char>| #[trigger]
            r@.contains_key(s) ==> r@[s] == vectors_in(live_items(live.chunks.pairs()), s),
        live@.chunks == pairs_map(live.chunks.pairs()),
{
    let ghost items = live_items(live.chunks.pairs());
    let mut groups = live_vectors(live);
    let n: usize = spaces.len();
    let ghost names = spaces.pairs();
    let mut out: StringMap<SpaceRows> = StringMap::new();
    let mut i: usize = 0;
    while i < n
        invariant
            n == names.len(),
            i <= n,
            names == spaces.pairs(),
            distinct_keys(names),
            items == live_items(live.chunks.pairs()),
            forall|k: int|
                0 <= k < names.len() ==> ({
                    let s = (#[trigger] names[k]).0;
                    if k < i {
                        out@.contains_key(s) && out@[s] == vectors_in(items, s)
                    } else {
                        groups@.contains_key(s) == (vectors_in(items, s).len() > 0) && (
                        groups@.contains_key(s) ==> groups@[s] == vectors_in(items, s))
                    }
                }),
            forall|s: Seq<char>| #[trigger]
                out@.contains_key(s) ==> exists|k: int| 0 <= k < i && (#[trigger] names[k]).0 == s,
        decreases n - i,
    {
        let space = spaces.key_at(i);
        proof {
            assert(names[i as int].0 == space@);
            assert forall|k: int| 0 <= k < names.len() && k != i implies (#[trigger] names[k]).0
                != space@ by {
                if k < i {
                    assert(names[k].0 != names[i as int].0);
                } else {
                    assert(names[i as int].0 != names[k].0);
                }
            }
        }
        let rows: SpaceRows = match groups.remove(space.as_str()) {
            Some(r) => r,
            None => SpaceRows { rows: Vec::new() },
        };
        proof {
            assert(rows@ =~= vectors_in(items, space@));
        }
        let ghost before = out@;
        out.insert(space.clone(), rows);
        i = i + 1;
        proof {
            assert forall|s: Seq<char>| #[trigger] out@.contains_key(s) implies exists|k: int|
                0 <= k < i && (#[trigger] names[k]).0 == s by {
                if s == space@ {
                    assert(names[i - 1].0 == s);
                } else {
                    assert(before.contains_key(s));
                    let k = choose|k: int| 0 <= k < i - 1 && (#[trigger] names[k]).0 == s;
                    assert(names[k].0 == s);
                }
            }
        }
    }
    proof {
        assert forall|s: Seq<char>| #[trigger]
            out@.dom().contains(s) == spaces@.dom().contains(s) by {
            if out@.contains_key(s) {
                let k = choose|k: int| 0 <= k < n && (#[trigger] names[k]).0 == s;
                assert(has_key(names, s));
            }
            if spaces@.contains_key(s) {
                let k = choose|k: int| 0 <= k < names.len() && (#[trigger] names[k]).0 == s;
                assert(out@.contains_key(names[k].0));
            }
        }
        assert(out@.dom() =~= spaces@.dom());
        assert forall|s: Seq<char>| #[trigger] out@.contains_key(s) implies out@[s] == vectors_in(
            items,
            s,
        ) by {
            let k = choose|k: int| 0 <= k < n && (#[trigger] names[k]).0 == s;
            assert(out@[names[k].0] == vectors_in(items, names[k].0));
        }
    }
    out
}

/// The embeddings of the live chunks, in order of the ids.
pub open spec fn live_items(pairs: Seq<(u64, ChunkView)>) -> Seq<
    (u64, Map<Seq<char>, Seq<u32>>),
> {
    Seq::new(pairs.len(), |i: int| (pairs[i].0, pairs[i].1.embeddings))
}

// ── Laws ────────────────────────────────────────────────────────────────

/// Replay is idempotent: once the chunks of a fragment are applied, replaying
/// the fragment finds nothing to apply.
pub proof fn law_replay_is_idempotent(
    live: Set<u64>,
    dead: Set<u64>,
    spaces: Map<Seq<char>, SpaceView>,
    dims: usize,
    chunks: Seq<DocumentChunk>,
)
    ensures
        ({
            let first = chunks.filter(is_fresh(live, dead, spaces, dims));
            chunks.filter(is_fresh(with_all(live, ids_of(first)), dead, spaces, dims)).len() == 0
        }),
{
    let p = is_fresh(live, dead, spaces, dims);
    let first = chunks.filter(p);
    let q = is_fresh(with_all(live, ids_of(first)), dead, spaces, dims);
    let again = chunks.filter(q);
    if again.len() > 0 {
        let c = again[0];
        assert(again.contains(c));
        lemma_filter_contains(chunks, q, c);
        lemma_filter_contains(chunks, p, c);
        let k = choose|k: int| 0 <= k < first.len() && first[k] == c;
        assert(ids_of(first)[k] == c.id);
        assert(with_all(live, ids_of(first)).contains(c.id));
    }
}

/// A deleted chunk is never applied again by replay.
pub proof fn law_replay_never_revives(
    live: Set<u64>,
    dead: Set<u64>,
    spaces: Map<Seq<char>, SpaceView>,
    dims: usize,
    chunks: Seq<DocumentChunk>,
    i: int,
)
    requires
        0 <= i < chunks.filter(is_fresh(live, dead, spaces, dims)).len(),
    ensures
        !dead.contains(chunks.filter(is_fresh(live, dead, spaces, dims))[i].id),
{
    let p = is_fresh(live, dead, spaces, dims);
    let f = chunks.filter(p);
    assert(f.contains(f[i]));
    lemma_filter_contains(chunks, p, f[i]);
}

/// The count stays true when a batch of new chunks is counted and made live.
pub proof fn law_ingest_counts_true(live: Set<u64>, ids: Seq<u64>)
    requires
        live.finite(),
        ids.no_duplicates(),
        forall|i: int| 0 <= i < ids.len() ==> !live.contains(#[trigger] ids[i]),
    ensures
        with_all(live, ids).finite(),
        with_all(live, ids).len() == live.len() + ids.len(),
    decreases ids.len(),
{
    if ids.len() == 0 {
        assert(with_all(live, ids) =~= live);
    } else {
        let init = ids.drop_last();
        let id = ids.last();
        assert forall|i: int| 0 <= i < init.len() implies !live.contains(#[trigger] init[i]) by {
            assert(init[i] == ids[i]);
        }
        law_ingest_counts_true(live, init);
        assert(!with_all(live, init).contains(id)) by {
            if init.contains(id) {
                let k = choose|k: int| 0 <= k < init.len() && init[k] == id;
                assert(ids[k] == ids[ids.len() - 1]);
            }
            assert(!live.contains(ids[ids.len() - 1]));
        }
        assert(with_all(live, ids) =~= with_all(live, init).insert(id)) by {
            assert forall|x: u64| ids.contains(x) == (init.contains(x) || x == id) by {
                if init.contains(x) {
                    let k = choose|k: int| 0 <= k < init.len() && init[k] == x;
                    assert(ids[k] == x);
                }
                if x == id {
                    assert(ids[ids.len() - 1] == x);
                }
                if ids.contains(x) {
                    let k = choose|k: int| 0 <= k < ids.len() && ids[k] == x;
                    if k < init.len() {
                        assert(init[k] == x);
                    }
                }
            }
        }
    }
}

/// The count stays true when live chunks, each once, are counted off and taken
/// out.
pub proof fn law_delete_counts_true(live: Set<u64>, ids: Seq<u64>)
    requires
        live.finite(),
        ids.no_duplicates(),
        forall|i: int| 0 <= i < ids.len() ==> live.contains(#[trigger] ids[i]),
    ensures
        live.difference(ids.to_set()).finite(),
        live.difference(ids.to_set()).len() == live.len() - ids.len(),
    decreases ids.len(),
{
    if ids.len() == 0 {
        assert(live.difference(ids.to_set()) =~= live);
    } else {
        let init = ids.drop_last();
        let id = ids.last();
        assert forall|i: int| 0 <= i < init.len() implies live.contains(#[trigger] init[i]) by {
            assert(init[i] == ids[i]);
        }
        law_delete_counts_true(live, init);
        assert(live.difference(init.to_set()).contains(id)) by {
            assert(live.contains(ids[ids.len() - 1]));
            if init.contains(id) {
                let k = choose|k: int| 0 <= k < init.len() && init[k] == id;
                assert(ids[k] == ids[ids.len() - 1]);
            }
        }
        assert(live.difference(ids.to_set()) =~= live.difference(init.to_set()).remove(id)) by {
            assert forall|x: u64| ids.contains(x) == (init.contains(x) || x == id) by {
                if init.contains(x) {
                    let k = choose|k: int| 0 <= k < init.len() && init[k] == x;
                    assert(ids[k] == x);
                }
                if x == id {
                    assert(ids[ids.len() - 1] == x);
                }
                if ids.contains(x) {
                    let k = choose|k: int| 0 <= k < ids.len() && ids[k] == x;
                    if k < init.len() {
                        assert(init[k] == x);
                    }
                }
            }
        }
    }
}

/// Replayed are exactly the chunks that the node neither has nor has had deleted and whose
/// embeddings fit the collection; set aside are those that it does not know and that do
/// not fit.
pub proof fn law_what_is_replayed(
    chunks: Seq<DocumentChunk>,
    live: Set<u64>,
    dead: Set<u64>,
    spaces: Map<Seq<char>, SpaceView>,
    dims: usize,
    c: DocumentChunk,
)
    ensures
        chunks.filter(is_fresh(live, dead, spaces, dims)).contains(c) <==> chunks.contains(c)
            && !live.contains(c.id) && !dead.contains(c.id) && dims_fit(
            c.embeddings@,
            spaces,
            dims,
        ),
        chunks.filter(is_misfit(live, dead, spaces, dims)).contains(c) <==> chunks.contains(c)
            && !live.contains(c.id) && !dead.contains(c.id) && !dims_fit(
            c.embeddings@,
            spaces,
            dims,
        ),
{
    crate::assoc::lemma_filter_contains(chunks, is_fresh(live, dead, spaces, dims), c);
    crate::assoc::lemma_filter_contains(chunks, is_misfit(live, dead, spaces, dims), c);
}

/// A rebuilt collection counts the live chunks, goes on after the last fragment, gives out
/// no id that was given out, and is configured as object storage says.
pub proof fn law_rebuilt_is_what_is_live(
    c: CollectionView,
    name: Seq<char>,
    b: BucketView,
    live: LiveView,
    next_seq: u64,
    now: Timestamp,
)
    requires
        is_rebuilt(c, name, Some(b), live, next_seq, now),
    ensures
        c.name == name,
        c.chunk_count == live.chunks.dom().len(),
        live.assigned ==> c.next_id > live.max_id,
        !live.assigned ==> c.next_id == 0,
        c.applied_seq == next_seq,
        c.created_at == b.created_at,
        c.vector_spaces == b.vector_spaces,
        c.default_vector_space == b.default_vector_space,
        c.embedding_dims == b.embedding_dims,
        c.config == b.config,
{
}

/// A collection that is rebuilt without a configuration is created now, and has a vector
/// space for each name under which a live chunk has an embedding, as wide as such an
/// embedding; where no chunk has one, it has the default space of 384 components.
pub proof fn law_rebuilt_without_configuration(
    c: CollectionView,
    name: Seq<char>,
    live: LiveView,
    next_seq: u64,
    now: Timestamp,
    id: u64,
    s: Seq<char>,
)
    requires
        is_rebuilt(c, name, None, live, next_seq, now),
    ensures
        c.created_at == now,
        c.name == name && c.applied_seq == next_seq,
        c.chunk_count == live.chunks.dom().len(),
        c.config.partition_by is None && c.config.embed_model.len() == 0,
        live.chunks.contains_key(id) && live.chunks[id].embeddings.contains_key(s)
            ==> c.vector_spaces.contains_key(s),
        c.vector_spaces.contains_key(s) ==> c.vector_spaces[s].status == "active"@
            && c.vector_spaces[s].model == "recovered"@,
        (forall|i: u64| #[trigger]
            live.chunks.contains_key(i) ==> live.chunks[i].embeddings.dom() =~= Set::empty()) ==> (
        c.vector_spaces.contains_key(s) <==> s == "default"@) && c.vector_spaces["default"@].dims
            == 384,
{
    if live.chunks.contains_key(id) && live.chunks[id].embeddings.contains_key(s) {
        assert(has_embedding(live.chunks, id, s));
    }
    if forall|i: u64| #[trigger]
        live.chunks.contains_key(i) ==> live.chunks[i].embeddings.dom() =~= Set::empty() {
        assert forall|i: u64, t: Seq<char>| !#[trigger] has_embedding(live.chunks, i, t) by {
            if has_embedding(live.chunks, i, t) {
                assert(live.chunks.contains_key(i));
                assert(live.chunks[i].embeddings.dom().contains(t));
            }
        }
    }
}

/// A recovered space has the width of one of the embeddings under its name.
pub proof fn law_recovered_space_has_a_live_width(
    chunks: Map<u64, ChunkView>,
    spaces: Map<Seq<char>, SpaceView>,
    id: u64,
    s: Seq<char>,
    t: Seq<char>,
)
    requires
        inferred(chunks, spaces),
        chunks.contains_key(id) && chunks[id].embeddings.contains_key(s),
        spaces.contains_key(t),
    ensures
        exists|i: u64| #[trigger]
            chunks.contains_key(i) && chunks[i].embeddings.contains_key(t) && spaces[t].dims
                == chunks[i].embeddings[t].len() as usize,
{
    assert(has_embedding(chunks, id, s));
    let i = choose|i: u64| #[trigger]
        has_embedding(chunks, i, t) && spaces[t] == recovered(
            chunks[i].embeddings[t].len() as usize,
        );
    assert(chunks.contains_key(i));
}

/// The relationships of a rebuilt collection are those that its live chunks name.
pub proof fn law_rebuilt_relationships(chunks: Map<u64, ChunkView>, id: u64)
    ensures
        chunk_relationships(chunks).contains_key(id) <==> chunks.contains_key(id),
        chunks.contains_key(id) ==> chunk_relationships(chunks)[id].parent_id
            == chunks[id].parent_id && chunk_relationships(chunks)[id].group_id
            == chunks[id].group_id,
{
}

/// The vectors that are indexed anew are those of the live chunks, each under its chunk's
/// id.
pub proof fn law_live_items_are_the_chunks_own(pairs: Seq<(u64, ChunkView)>, i: int)
    requires
        0 <= i < pairs.len(),
    ensures
        live_items(pairs).len() == pairs.len(),
        live_items(pairs)[i].0 == pairs[i].0,
        live_items(pairs)[i].1 == pairs[i].1.embeddings,
{
}

/// A collection that is rebuilt without a configuration has one of its spaces as the default,
/// and that space's width.
pub proof fn law_rebuilt_default_space(
    c: CollectionView,
    name: Seq<char>,
    live: LiveView,
    next_seq: u64,
    now: Timestamp,
    s: Seq<char>,
)
    requires
        is_rebuilt(c, name, None, live, next_seq, now),
    ensures
        c.vector_spaces.contains_key(s) ==> c.default_vector_space is Some,
        c.default_vector_space matches Some(d) ==> c.vector_spaces.contains_key(d)
            && c.embedding_dims == c.vector_spaces[d].dims,
{
    if c.default_vector_space is None && c.vector_spaces.contains_key(s) {
        assert(!Map::<Seq<char>, SpaceView>::empty().contains_key(s));
    }
}

} // verus!
