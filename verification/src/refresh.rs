//! Refreshing a node's copy of a collection from object storage: what a manifest
//! calls for, and what each log fragment changes.
use crate::assoc::lemma_filter_contains;
use crate::bucket::BucketConfig;
use crate::duplicate::text_views;
use crate::ingest::dims_fit;
use crate::loaded::{ids_of, is_live, with_all, LoadedCollection};
use crate::lsm::{
    apply_event, drop_events, fragment_events, lemma_replay_concat, log_events, put_events, replay,
    Event, Fragment, LiveView,
};
use crate::manifest::{
    compaction_passed, from_frontier, needs_reattach, pending_fragments, sync_config, synced,
    ConfigSync, FragmentRef, Manifest,
};
use crate::models::{chunk_views, ChunkRelation, ChunkView, DocumentChunk, SpaceView};
use crate::replay::{is_fresh, is_misfit, replay_data, ReplayBatch};
use vstd::prelude::*;

verus! {

broadcast use vstd::std_specs::hash::group_hash_axioms;

/// What a manifest calls for.
#[derive(Debug)]
pub enum RefreshPlan {
    /// Rebuild the copy: the collection was created anew, or compaction has
    /// passed the frontier.
    Rebuild { recreated: bool },
    /// Apply these fragments, each one unless it was applied meanwhile.
    Apply(Vec<FragmentRef>),
}

/// The configuration in object storage belongs to another collection of the same
/// name.
pub open spec fn is_recreated(loaded: LoadedCollection, cfg: Option<BucketConfig>) -> bool {
    cfg is Some && loaded.metadata.created_at != cfg->0.created_at
}

/// What a manifest calls for. The vector spaces and their default are taken over
/// from the configuration first; `present` are the spaces that the node has
/// indexes of.
pub fn plan_refresh(
    loaded: &mut LoadedCollection,
    cfg: &Option<BucketConfig>,
    present: &Vec<String>,
    manifest: Manifest,
) -> (r: (ConfigSync, RefreshPlan))
    ensures
        match r.1 {
            RefreshPlan::Rebuild { recreated } => {
                &&& recreated == is_recreated(*old(loaded), *cfg)
                &&& recreated || compaction_passed(
                    manifest.compaction_watermark,
                    old(loaded).applied.contiguous,
                )
            },
            RefreshPlan::Apply(pending) => {
                &&& !is_recreated(*old(loaded), *cfg)
                &&& !compaction_passed(
                    manifest.compaction_watermark,
                    old(loaded).applied.contiguous,
                )
                &&& pending@ == manifest.uncompacted@.filter(
                    from_frontier(old(loaded).applied.contiguous),
                )
            },
        },
        r.0 is Recreated <==> is_recreated(*old(loaded), *cfg),
        r.0 is Synced <==> cfg is Some && !is_recreated(*old(loaded), *cfg) && (
        old(loaded).metadata@.vector_spaces != cfg->0@.vector_spaces
            || old(loaded).metadata@.default_vector_space != cfg->0@.default_vector_space),
        final(loaded).metadata@ == (if r.0 is Synced {
            synced(old(loaded).metadata@, cfg->0@)
        } else {
            old(loaded).metadata@
        }),
        r.0 matches ConfigSync::Synced { added, removed } ==> {
            &&& forall|s: Seq<char>| #[trigger]
                text_views(added@).contains(s) <==> cfg->0@.vector_spaces.contains_key(s)
                    && !text_views(present@).contains(s)
            &&& forall|s: Seq<char>| #[trigger]
                text_views(removed@).contains(s) <==> text_views(present@).contains(s)
                    && !cfg->0@.vector_spaces.contains_key(s)
        },
        *final(loaded) == (LoadedCollection { metadata: final(loaded).metadata, ..*old(loaded) }),
{
    let sync = match cfg {
        Some(c) => sync_config(&mut loaded.metadata, c, present),
        None => ConfigSync::Unchanged,
    };
    let recreated = match &sync {
        ConfigSync::Recreated => true,
        _ => false,
    };
    let contiguous: u64 = loaded.applied.contiguous;
    if needs_reattach(recreated, manifest.compaction_watermark, contiguous) {
        return (sync, RefreshPlan::Rebuild { recreated });
    }
    (sync, RefreshPlan::Apply(pending_fragments(manifest.uncompacted, contiguous)))
}

/// What a fragment changes in a node's copy.
#[derive(Debug)]
pub enum FragmentPlan {
    /// Commit these chunks; the others are known already, or do not fit.
    Ingest(ReplayBatch),
    /// Delete these chunks; the others are not live.
    Delete(Vec<u64>),
    PutEdges(Vec<ChunkRelation>),
    DropEdges(Vec<String>),
    /// Nothing. The ids are chunks that do not fit.
    Nothing { quarantined: Vec<u64> },
}

/// What a fragment changes in a node's copy. Fragments may be replayed any number
/// of times, so what is known already, or not there any more, is passed over.
pub fn plan_fragment(loaded: &LoadedCollection, fragment: Fragment) -> (r: FragmentPlan)
    ensures
        match fragment {
            Fragment::Data(chunks) => {
                let fresh = chunks@.filter(
                    is_fresh(
                        loaded.live@,
                        loaded.tombstones@,
                        loaded.metadata.vector_spaces@,
                        loaded.metadata.embedding_dims,
                    ),
                );
                let misfit = ids_of(
                    chunks@.filter(
                        is_misfit(
                            loaded.live@,
                            loaded.tombstones@,
                            loaded.metadata.vector_spaces@,
                            loaded.metadata.embedding_dims,
                        ),
                    ),
                );
                match r {
                    FragmentPlan::Ingest(b) => b.chunks@ == fresh && fresh.len() > 0
                        && b.quarantined@ == misfit && crate::ingest::relationships_of(
                        chunk_views(b.chunks@),
                        b.relationships@,
                    ) && crate::vectors::by_space(
                        crate::ingest::chunk_items(chunk_views(b.chunks@)),
                        b.space_vectors@,
                    ),
                    FragmentPlan::Nothing { quarantined } => fresh.len() == 0 && quarantined@
                        == misfit,
                    _ => false,
                }
            },
            Fragment::Tombstone(ids) => {
                let apply = ids@.filter(is_live(loaded.live@));
                match r {
                    FragmentPlan::Delete(v) => v@ == apply && apply.len() > 0,
                    FragmentPlan::Nothing { quarantined } => apply.len() == 0
                        && quarantined@.len() == 0,
                    _ => false,
                }
            },
            Fragment::RelationUpsert(edges) => r == FragmentPlan::PutEdges(edges),
            Fragment::RelationDelete(ids) => r == FragmentPlan::DropEdges(ids),
        },
{
    match fragment {
        Fragment::Data(chunks) => {
            let batch = replay_data(loaded, chunks);
            if batch.chunks.len() == 0 {
                FragmentPlan::Nothing { quarantined: batch.quarantined }
            } else {
                FragmentPlan::Ingest(batch)
            }
        },
        Fragment::Tombstone(ids) => {
            let apply = loaded.live_among(&ids);
            if apply.len() == 0 {
                FragmentPlan::Nothing { quarantined: Vec::new() }
            } else {
                FragmentPlan::Delete(apply)
            }
        },
        Fragment::RelationUpsert(edges) => FragmentPlan::PutEdges(edges),
        Fragment::RelationDelete(ids) => FragmentPlan::DropEdges(ids),
    }
}

// ── Laws ────────────────────────────────────────────────────────────────

/// A delete that is replayed deletes nothing more: once its chunks are not live,
/// the same fragment changes nothing.
pub proof fn law_delete_replays_to_nothing(live: Set<u64>, ids: Seq<u64>)
    ensures
        ids.filter(is_live(live.difference(ids.to_set()))).len() == 0,
    decreases ids.len(),
{
    let rest = live.difference(ids.to_set());
    let kept = ids.filter(is_live(rest));
    if kept.len() > 0 {
        lemma_filter_contains(ids, is_live(rest), kept[0]);
        assert(kept.contains(kept[0]));
        assert(ids.to_set().contains(kept[0]));
    }
}

/// Which chunks a node has as live, and which as deleted.
#[verifier::ext_equal]
pub struct Known {
    pub live: Set<u64>,
    pub dead: Set<u64>,
}

/// What a node knows after a fragment: fresh chunks are live, chunks that were
/// live and are deleted are dead.
pub open spec fn after_fragment(
    k: Known,
    f: Fragment,
    spaces: Map<Seq<char>, SpaceView>,
    dims: usize,
) -> Known {
    match f {
        Fragment::Data(chunks) => Known {
            live: with_all(
                k.live,
                ids_of(chunks@.filter(is_fresh(k.live, k.dead, spaces, dims))),
            ),
            ..k
        },
        Fragment::Tombstone(ids) => {
            let apply = ids@.filter(is_live(k.live));
            Known { live: k.live.difference(apply.to_set()), dead: with_all(k.dead, apply) }
        },
        _ => k,
    }
}

/// What a node knows after a stretch of the log.
pub open spec fn after_log(
    k: Known,
    log: Seq<Fragment>,
    spaces: Map<Seq<char>, SpaceView>,
    dims: usize,
) -> Known
    decreases log.len(),
{
    if log.len() == 0 {
        k
    } else {
        after_fragment(after_log(k, log.drop_last(), spaces, dims), log.last(), spaces, dims)
    }
}

/// The fragment puts in no chunk that the node has seen deleted, and none with an
/// embedding that does not fit.
pub open spec fn is_clean(
    k: Known,
    f: Fragment,
    spaces: Map<Seq<char>, SpaceView>,
    dims: usize,
) -> bool {
    f matches Fragment::Data(chunks) ==> forall|i: int|
        0 <= i < chunks@.len() ==> !k.dead.contains((#[trigger] chunks@[i]).id) && dims_fit(
            chunks@[i].embeddings@,
            spaces,
            dims,
        )
}

proof fn lemma_puts(s: LiveView, chunks: Seq<ChunkView>)
    ensures
        forall|id: u64| #[trigger]
            replay(s, put_events(chunks)).chunks.contains_key(id) <==> s.chunks.contains_key(id)
                || exists|i: int| 0 <= i < chunks.len() && (#[trigger] chunks[i]).id == id,
    decreases chunks.len(),
{
    let events = put_events(chunks);
    if chunks.len() > 0 {
        let init = chunks.drop_last();
        lemma_puts(s, init);
        assert(events.drop_last() =~= put_events(init));
        assert(events.last() == Event::Put(chunks.last()));
        let before = replay(s, put_events(init));
        assert(replay(s, events) == apply_event(before, Event::Put(chunks.last())));
        assert forall|id: u64| #[trigger]
            replay(s, events).chunks.contains_key(id) <==> s.chunks.contains_key(id) || exists|
                i: int,
            | 0 <= i < chunks.len() && (#[trigger] chunks[i]).id == id by {
            assert(before.chunks.contains_key(id) <==> s.chunks.contains_key(id) || exists|i: int|
                0 <= i < init.len() && (#[trigger] init[i]).id == id);
            if exists|i: int| 0 <= i < init.len() && (#[trigger] init[i]).id == id {
                let i = choose|i: int| 0 <= i < init.len() && (#[trigger] init[i]).id == id;
                assert(chunks[i].id == id);
            }
            if id == chunks.last().id {
                assert(chunks[chunks.len() - 1].id == id);
            }
            if exists|i: int| 0 <= i < chunks.len() && (#[trigger] chunks[i]).id == id {
                let i = choose|i: int| 0 <= i < chunks.len() && (#[trigger] chunks[i]).id == id;
                if i < init.len() {
                    assert(init[i].id == id);
                }
            }
        }
    }
}

proof fn lemma_drops(s: LiveView, ids: Seq<u64>)
    ensures
        forall|id: u64| #[trigger]
            replay(s, drop_events(ids)).chunks.contains_key(id) <==> s.chunks.contains_key(id)
                && !ids.contains(id),
    decreases ids.len(),
{
    let events = drop_events(ids);
    if ids.len() > 0 {
        let init = ids.drop_last();
        lemma_drops(s, init);
        assert(events.drop_last() =~= drop_events(init));
        assert(events.last() == Event::Drop(ids.last()));
        let before = replay(s, drop_events(init));
        assert(replay(s, events) == apply_event(before, Event::Drop(ids.last())));
        assert forall|id: u64| #[trigger]
            replay(s, events).chunks.contains_key(id) <==> s.chunks.contains_key(id)
                && !ids.contains(id) by {
            assert(before.chunks.contains_key(id) <==> s.chunks.contains_key(id)
                && !init.contains(id));
            if init.contains(id) {
                let i = choose|i: int| 0 <= i < init.len() && init[i] == id;
                assert(ids[i] == id);
            }
            if id == ids.last() {
                assert(ids[ids.len() - 1] == id);
            }
            if ids.contains(id) {
                let i = choose|i: int| 0 <= i < ids.len() && ids[i] == id;
                if i < init.len() {
                    assert(init[i] == id);
                }
            }
        }
    }
}

proof fn lemma_edges_keep_chunks(s: LiveView, events: Seq<Event>)
    requires
        forall|i: int| 0 <= i < events.len() ==> #[trigger] events[i] is Link || events[i] is Unlink,
    ensures
        replay(s, events).chunks == s.chunks,
    decreases events.len(),
{
    if events.len() > 0 {
        let init = events.drop_last();
        assert forall|i: int| 0 <= i < init.len() implies #[trigger] init[i] is Link
            || init[i] is Unlink by {
            assert(init[i] == events[i]);
        }
        lemma_edges_keep_chunks(s, init);
        assert(events[events.len() - 1] is Link || events[events.len() - 1] is Unlink);
    }
}

/// A refresh converges: a node that has the chunks of a store has, after it has
/// applied the next fragment, the chunks that the store then adds up to. This
/// leaves out fragments that put a deleted chunk back, and fragments with
/// embeddings that do not fit; a node passes over those.
pub proof fn law_fragment_converges(
    k: Known,
    s: LiveView,
    f: Fragment,
    spaces: Map<Seq<char>, SpaceView>,
    dims: usize,
)
    requires
        k.live == s.chunks.dom(),
        is_clean(k, f, spaces, dims),
    ensures
        after_fragment(k, f, spaces, dims).live == replay(s, fragment_events(f)).chunks.dom(),
{
    let node = after_fragment(k, f, spaces, dims).live;
    let store = replay(s, fragment_events(f)).chunks;
    match f {
        Fragment::Data(chunks) => {
            let views = chunk_views(chunks@);
            let p = is_fresh(k.live, k.dead, spaces, dims);
            let fresh = chunks@.filter(p);
            lemma_puts(s, views);
            assert forall|id: u64| node.contains(id) == store.dom().contains(id) by {
                if ids_of(fresh).contains(id) {
                    let i = choose|i: int| 0 <= i < ids_of(fresh).len() && ids_of(fresh)[i] == id;
                    lemma_filter_contains(chunks@, p, fresh[i]);
                    assert(fresh.contains(fresh[i]));
                    let j = choose|j: int| 0 <= j < chunks@.len() && chunks@[j] == fresh[i];
                    assert(views[j].id == id);
                }
                if !k.live.contains(id) && exists|j: int|
                    0 <= j < views.len() && (#[trigger] views[j]).id == id {
                    let j = choose|j: int| 0 <= j < views.len() && (#[trigger] views[j]).id == id;
                    assert(p(chunks@[j]));
                    lemma_filter_contains(chunks@, p, chunks@[j]);
                    assert(chunks@.contains(chunks@[j]));
                    let i = choose|i: int| 0 <= i < fresh.len() && fresh[i] == chunks@[j];
                    assert(ids_of(fresh)[i] == id);
                }
                assert(store.contains_key(id) <==> s.chunks.contains_key(id) || exists|j: int|
                    0 <= j < views.len() && (#[trigger] views[j]).id == id);
            }
            assert(node =~= store.dom());
        },
        Fragment::Tombstone(ids) => {
            lemma_drops(s, ids@);
            let apply = ids@.filter(is_live(k.live));
            assert forall|id: u64| node.contains(id) == store.dom().contains(id) by {
                lemma_filter_contains(ids@, is_live(k.live), id);
                assert(store.contains_key(id) <==> s.chunks.contains_key(id) && !ids@.contains(id));
            }
            assert(node =~= store.dom());
        },
        Fragment::RelationUpsert(edges) => {
            lemma_edges_keep_chunks(s, fragment_events(f));
        },
        Fragment::RelationDelete(ids) => {
            lemma_edges_keep_chunks(s, fragment_events(f));
        },
    }
}

/// A refresh converges over any stretch of the log, on the same terms at each
/// fragment.
pub proof fn law_refresh_converges(
    k: Known,
    s: LiveView,
    log: Seq<Fragment>,
    spaces: Map<Seq<char>, SpaceView>,
    dims: usize,
)
    requires
        k.live == s.chunks.dom(),
        forall|i: int|
            0 <= i < log.len() ==> is_clean(
                after_log(k, log.subrange(0, i), spaces, dims),
                #[trigger] log[i],
                spaces,
                dims,
            ),
    ensures
        after_log(k, log, spaces, dims).live == replay(s, log_events(log)).chunks.dom(),
    decreases log.len(),
{
    if log.len() > 0 {
        let init = log.drop_last();
        assert forall|i: int| 0 <= i < init.len() implies is_clean(
            after_log(k, init.subrange(0, i), spaces, dims),
            #[trigger] init[i],
            spaces,
            dims,
        ) by {
            assert(init.subrange(0, i) =~= log.subrange(0, i));
            assert(init[i] == log[i]);
        }
        law_refresh_converges(k, s, init, spaces, dims);
        let n = log.len() - 1;
        assert(log.subrange(0, n) =~= init);
        assert(is_clean(after_log(k, log.subrange(0, n), spaces, dims), log[n], spaces, dims));
        law_fragment_converges(
            after_log(k, init, spaces, dims),
            replay(s, log_events(init)),
            log.last(),
            spaces,
            dims,
        );
        lemma_replay_concat(s, log_events(init), fragment_events(log.last()));
    } else {
        assert(log_events(log) =~= Seq::empty());
    }
}

/// What a node knows after chunks were written: those that it knew before, and those
/// among the written ones that it has not had deleted and whose embeddings fit.
pub proof fn law_known_after_a_write(
    k: Known,
    chunks: Vec<DocumentChunk>,
    spaces: Map<Seq<char>, SpaceView>,
    dims: usize,
    id: u64,
)
    ensures
        ({
            let a = after_fragment(k, Fragment::Data(chunks), spaces, dims);
            &&& a.dead == k.dead
            &&& a.live.contains(id) <==> k.live.contains(id) || (!k.dead.contains(id) && exists|
                i: int,
            |
                0 <= i < chunks@.len() && (#[trigger] chunks@[i]).id == id && dims_fit(
                    chunks@[i].embeddings@,
                    spaces,
                    dims,
                ))
        }),
{
    let p = is_fresh(k.live, k.dead, spaces, dims);
    let kept = chunks@.filter(p);
    let a = after_fragment(k, Fragment::Data(chunks), spaces, dims);
    if a.live.contains(id) && !k.live.contains(id) {
        assert(ids_of(kept).contains(id));
        let j = choose|j: int| 0 <= j < ids_of(kept).len() && ids_of(kept)[j] == id;
        let c = kept[j];
        assert(kept.contains(c));
        lemma_filter_contains(chunks@, p, c);
        let i = choose|i: int| 0 <= i < chunks@.len() && chunks@[i] == c;
        assert(chunks@[i].id == id);
    }
    if !k.live.contains(id) && !k.dead.contains(id) && exists|i: int|
        0 <= i < chunks@.len() && (#[trigger] chunks@[i]).id == id && dims_fit(
            chunks@[i].embeddings@,
            spaces,
            dims,
        ) {
        let i = choose|i: int|
            0 <= i < chunks@.len() && (#[trigger] chunks@[i]).id == id && dims_fit(
                chunks@[i].embeddings@,
                spaces,
                dims,
            );
        let c = chunks@[i];
        assert(chunks@.contains(c));
        lemma_filter_contains(chunks@, p, c);
        let j = choose|j: int| 0 <= j < kept.len() && kept[j] == c;
        assert(ids_of(kept)[j] == id);
    }
}

/// What a node knows after a delete: the deleted chunks are not live, those that were are
/// remembered as deleted, and nothing else changes. Edges change neither.
pub proof fn law_known_after_a_delete(
    k: Known,
    ids: Vec<u64>,
    edges: Vec<ChunkRelation>,
    names: Vec<String>,
    spaces: Map<Seq<char>, SpaceView>,
    dims: usize,
    id: u64,
)
    ensures
        ({
            let a = after_fragment(k, Fragment::Tombstone(ids), spaces, dims);
            &&& a.live.contains(id) <==> k.live.contains(id) && !ids@.contains(id)
            &&& a.dead.contains(id) <==> k.dead.contains(id) || (k.live.contains(id)
                && ids@.contains(id))
        }),
        after_fragment(k, Fragment::RelationUpsert(edges), spaces, dims) == k,
        after_fragment(k, Fragment::RelationDelete(names), spaces, dims) == k,
{
    lemma_filter_contains(ids@, is_live(k.live), id);
}

/// A collection was created anew exactly where object storage has a configuration of
/// another date of creation.
pub proof fn law_recreated_is_of_another_date(loaded: LoadedCollection, cfg: BucketConfig)
    ensures
        is_recreated(loaded, Some(cfg)) <==> loaded.metadata.created_at != cfg.created_at,
        !is_recreated(loaded, None),
{
}

} // verus!
