//! What each entry of the log does to the live state of a collection.
use crate::duplicate::text_views;
use crate::lsm::{
    apply_segments, drop_events, fragment_events, knowing, lemma_replay_concat, link_events,
    log_events, materialized, put_events, replay, unlink_events, Event, Fragment, LiveView, Segment,
};
use crate::models::{
    chunk_views, relation_views, ChunkRelation, ChunkView, DocumentChunk, RelationView,
};
use vstd::prelude::*;

verus! {

proof fn lemma_puts(s: LiveView, cs: Seq<ChunkView>, i: int, id: u64)
    ensures
        replay(s, put_events(cs)).relations == s.relations,
        (forall|j: int| 0 <= j < cs.len() ==> (#[trigger] cs[j]).id != id) ==> {
            let r = replay(s, put_events(cs));
            &&& r.chunks.contains_key(id) <==> s.chunks.contains_key(id)
            &&& r.chunks[id] == s.chunks[id]
        },
        0 <= i < cs.len() && (forall|j: int| i < j < cs.len() ==> (#[trigger] cs[j]).id != cs[i].id)
            ==> {
            let r = replay(s, put_events(cs));
            r.chunks.contains_key(cs[i].id) && r.chunks[cs[i].id] == cs[i]
        },
    decreases cs.len(),
{
    if cs.len() > 0 {
        let init = cs.drop_last();
        let n = cs.len() - 1;
        assert(put_events(cs).drop_last() =~= put_events(init));
        assert(put_events(cs).last() == Event::Put(cs[n]));
        lemma_puts(s, init, i, id);
        assert(forall|j: int| 0 <= j < init.len() ==> init[j] == cs[j]);
        if 0 <= i < n && (forall|j: int| i < j < cs.len() ==> (#[trigger] cs[j]).id != cs[i].id) {
            assert(cs[n].id != cs[i].id);
        }
    }
}

proof fn lemma_drops(s: LiveView, ids: Seq<u64>, id: u64, k: Seq<char>)
    ensures
        ({
            let r = replay(s, drop_events(ids));
            &&& r.chunks.contains_key(id) <==> s.chunks.contains_key(id) && !ids.contains(id)
            &&& r.chunks.contains_key(id) ==> r.chunks[id] == s.chunks[id]
            &&& r.relations.contains_key(k) <==> s.relations.contains_key(k) && !ids.contains(
                s.relations[k].source_chunk_id,
            ) && !ids.contains(s.relations[k].target_chunk_id)
            &&& r.relations.contains_key(k) ==> r.relations[k] == s.relations[k]
        }),
    decreases ids.len(),
{
    if ids.len() > 0 {
        let init = ids.drop_last();
        let x = ids.last();
        assert(drop_events(ids).drop_last() =~= drop_events(init));
        assert(drop_events(ids).last() == Event::Drop(x));
        lemma_drops(s, init, id, k);
        assert(ids =~= init.push(x));
        assert forall|y: u64| #[trigger] ids.contains(y) <==> init.contains(y) || y == x by {
            if init.contains(y) {
                let j = choose|j: int| 0 <= j < init.len() && init[j] == y;
                assert(ids[j] == y);
            }
            if y == x {
                assert(ids[ids.len() - 1] == y);
            }
            if ids.contains(y) && y != x {
                let j = choose|j: int| 0 <= j < ids.len() && ids[j] == y;
                assert(init[j] == y);
            }
        }
    }
}

proof fn lemma_links(s: LiveView, rs: Seq<RelationView>, i: int, k: Seq<char>)
    ensures
        replay(s, link_events(rs)).chunks == s.chunks,
        (forall|j: int| 0 <= j < rs.len() ==> (#[trigger] rs[j]).relation_id != k) ==> {
            let r = replay(s, link_events(rs));
            &&& r.relations.contains_key(k) <==> s.relations.contains_key(k)
            &&& r.relations[k] == s.relations[k]
        },
        0 <= i < rs.len() && (forall|j: int|
            i < j < rs.len() ==> (#[trigger] rs[j]).relation_id != rs[i].relation_id) ==> {
            let r = replay(s, link_events(rs));
            r.relations.contains_key(rs[i].relation_id) && r.relations[rs[i].relation_id] == rs[i]
        },
    decreases rs.len(),
{
    if rs.len() > 0 {
        let init = rs.drop_last();
        let n = rs.len() - 1;
        assert(link_events(rs).drop_last() =~= link_events(init));
        assert(link_events(rs).last() == Event::Link(rs[n]));
        lemma_links(s, init, i, k);
        assert(forall|j: int| 0 <= j < init.len() ==> init[j] == rs[j]);
        if 0 <= i < n && (forall|j: int|
            i < j < rs.len() ==> (#[trigger] rs[j]).relation_id != rs[i].relation_id) {
            assert(rs[n].relation_id != rs[i].relation_id);
        }
    }
}

proof fn lemma_unlinks(s: LiveView, ids: Seq<Seq<char>>, k: Seq<char>)
    ensures
        ({
            let r = replay(s, unlink_events(ids));
            &&& r.chunks == s.chunks
            &&& r.relations.contains_key(k) <==> s.relations.contains_key(k) && !ids.contains(k)
            &&& r.relations.contains_key(k) ==> r.relations[k] == s.relations[k]
        }),
    decreases ids.len(),
{
    if ids.len() > 0 {
        let init = ids.drop_last();
        let x = ids.last();
        assert(unlink_events(ids).drop_last() =~= unlink_events(init));
        assert(unlink_events(ids).last() == Event::Unlink(x));
        lemma_unlinks(s, init, k);
        if init.contains(k) {
            let j = choose|j: int| 0 <= j < init.len() && init[j] == k;
            assert(ids[j] == k);
        }
        if ids.contains(k) && k != x {
            let j = choose|j: int| 0 <= j < ids.len() && ids[j] == k;
            assert(init[j] == k);
        }
        assert(ids[ids.len() - 1] == x);
    }
}

/// Chunks that are written are live as they were written, the last word on an id
/// counting; no other chunk and no edge changes.
pub proof fn law_written_chunks_are_live(s: LiveView, chunks: Vec<DocumentChunk>, i: int, id: u64)
    ensures
        ({
            let r = replay(s, fragment_events(Fragment::Data(chunks)));
            &&& r.relations == s.relations
            &&& (forall|j: int| 0 <= j < chunks@.len() ==> (#[trigger] chunks@[j]).id != id) ==> (
            r.chunks.contains_key(id) <==> s.chunks.contains_key(id)) && r.chunks[id]
                == s.chunks[id]
            &&& 0 <= i < chunks@.len() && (forall|j: int|
                i < j < chunks@.len() ==> (#[trigger] chunks@[j]).id != chunks@[i].id)
                ==> r.chunks.contains_key(chunks@[i].id) && r.chunks[chunks@[i].id] == chunks@[i]@
        }),
{
    let cs = chunk_views(chunks@);
    lemma_puts(s, cs, i, id);
    assert(forall|j: int| 0 <= j < cs.len() ==> cs[j] == chunks@[j]@);
}

/// Chunks that are deleted are gone, with every edge that leaves or reaches one of them;
/// every other chunk and every other edge stays as it was.
pub proof fn law_deleted_chunks_are_gone(s: LiveView, ids: Vec<u64>, id: u64, k: Seq<char>)
    ensures
        ({
            let r = replay(s, fragment_events(Fragment::Tombstone(ids)));
            &&& r.chunks.contains_key(id) <==> s.chunks.contains_key(id) && !ids@.contains(id)
            &&& r.chunks.contains_key(id) ==> r.chunks[id] == s.chunks[id]
            &&& r.relations.contains_key(k) <==> s.relations.contains_key(k) && !ids@.contains(
                s.relations[k].source_chunk_id,
            ) && !ids@.contains(s.relations[k].target_chunk_id)
            &&& r.relations.contains_key(k) ==> r.relations[k] == s.relations[k]
        }),
{
    lemma_drops(s, ids@, id, k);
}

/// Edges that are written are live as they were written, the last word on an edge
/// counting; no other edge and no chunk changes.
pub proof fn law_written_edges_are_live(
    s: LiveView,
    edges: Vec<ChunkRelation>,
    i: int,
    k: Seq<char>,
)
    ensures
        ({
            let r = replay(s, fragment_events(Fragment::RelationUpsert(edges)));
            &&& r.chunks == s.chunks
            &&& (forall|j: int|
                0 <= j < edges@.len() ==> (#[trigger] edges@[j]).relation_id@ != k) ==> (
            r.relations.contains_key(k) <==> s.relations.contains_key(k)) && r.relations[k]
                == s.relations[k]
            &&& 0 <= i < edges@.len() && (forall|j: int|
                i < j < edges@.len() ==> (#[trigger] edges@[j]).relation_id@
                    != edges@[i].relation_id@) ==> r.relations.contains_key(edges@[i].relation_id@)
                && r.relations[edges@[i].relation_id@] == edges@[i]@
        }),
{
    let rs = relation_views(edges@);
    lemma_links(s, rs, i, k);
    assert(forall|j: int| 0 <= j < rs.len() ==> rs[j] == edges@[j]@);
}

/// Edges that are deleted are gone; every other edge and every chunk stays as it was.
pub proof fn law_deleted_edges_are_gone(s: LiveView, ids: Vec<String>, k: Seq<char>)
    ensures
        ({
            let r = replay(s, fragment_events(Fragment::RelationDelete(ids)));
            &&& r.chunks == s.chunks
            &&& r.relations.contains_key(k) <==> s.relations.contains_key(k) && forall|j: int|
                0 <= j < ids@.len() ==> (#[trigger] ids@[j])@ != k
            &&& r.relations.contains_key(k) ==> r.relations[k] == s.relations[k]
        }),
{
    let t = text_views(ids@);
    lemma_unlinks(s, t, k);
    assert(forall|j: int| 0 <= j < t.len() ==> t[j] == ids@[j]@);
    if t.contains(k) {
        let j = choose|j: int| 0 <= j < t.len() && t[j] == k;
        assert(ids@[j]@ == k);
    }
    assert forall|j: int| 0 <= j < ids@.len() && !t.contains(k) implies (#[trigger] ids@[j])@
        != k by {
        assert(t[j] == ids@[j]@);
    }
}

/// The log is read in order, after the segments: one more entry acts on the state that
/// everything before it left, and with no entry the segments are all there is.
pub proof fn law_log_is_read_in_order(segs: Seq<Segment>, log: Seq<Fragment>, f: Fragment)
    ensures
        materialized(segs, log.push(f)) == replay(materialized(segs, log), fragment_events(f)),
        materialized(segs, Seq::empty()) == apply_segments(segs),
        materialized(Seq::empty(), Seq::empty()).chunks == Map::<u64, ChunkView>::empty(),
        materialized(Seq::empty(), Seq::empty()).relations == Map::<
            Seq<char>,
            RelationView,
        >::empty(),
        !materialized(Seq::empty(), Seq::empty()).assigned,
{
    assert(log.push(f).drop_last() =~= log);
    lemma_replay_concat(apply_segments(segs), log_events(log), fragment_events(f));
    assert(log_events(Seq::<Fragment>::empty()) =~= Seq::empty());
}

/// What the newest segment holds is live: each of its chunks and edges, the last word on
/// an id counting. What it deletes and does not hold is gone, and whatever it does not
/// speak of stays as the older segments left it, but for edges of a chunk that it deletes.
pub proof fn law_newest_segment_counts(
    segs: Seq<Segment>,
    seg: Segment,
    i: int,
    e: int,
    id: u64,
    k: Seq<char>,
)
    ensures
        ({
            let s = apply_segments(segs);
            let r = apply_segments(segs.push(seg));
            let held = exists|j: int| 0 <= j < seg.chunks@.len() && (#[trigger] seg.chunks@[j]).id == id;
            let linked = exists|j: int|
                0 <= j < seg.relations@.len() && (#[trigger] seg.relations@[j]).relation_id@ == k;
            let unlinked = exists|j: int|
                0 <= j < seg.relation_tombstones@.len() && (
                #[trigger] seg.relation_tombstones@[j])@ == k;
            &&& 0 <= i < seg.chunks@.len() && (forall|j: int|
                i < j < seg.chunks@.len() ==> (#[trigger] seg.chunks@[j]).id != seg.chunks@[i].id)
                ==> r.chunks.contains_key(seg.chunks@[i].id) && r.chunks[seg.chunks@[i].id]
                == seg.chunks@[i]@
            &&& !held ==> (r.chunks.contains_key(id) <==> s.chunks.contains_key(id)
                && !seg.tombstones@.contains(id))
            &&& !held && r.chunks.contains_key(id) ==> r.chunks[id] == s.chunks[id]
            &&& 0 <= e < seg.relations@.len() && (forall|j: int|
                e < j < seg.relations@.len() ==> (#[trigger] seg.relations@[j]).relation_id@
                    != seg.relations@[e].relation_id@) ==> r.relations.contains_key(
                seg.relations@[e].relation_id@,
            ) && r.relations[seg.relations@[e].relation_id@] == seg.relations@[e]@
            &&& !linked ==> (r.relations.contains_key(k) <==> s.relations.contains_key(k)
                && !unlinked && !seg.tombstones@.contains(s.relations[k].source_chunk_id)
                && !seg.tombstones@.contains(s.relations[k].target_chunk_id))
            &&& !linked && r.relations.contains_key(k) ==> r.relations[k] == s.relations[k]
        }),
{
    let s = apply_segments(segs);
    let s0 = knowing(s, seg.max_id);
    let cs = chunk_views(seg.chunks@);
    let rs = relation_views(seg.relations@);
    let rt = text_views(seg.relation_tombstones@);
    assert(segs.push(seg).drop_last() =~= segs);
    let d = drop_events(seg.tombstones@);
    let u = unlink_events(rt);
    let p = put_events(cs);
    let l = link_events(rs);
    lemma_replay_concat(s0, d + u + p, l);
    lemma_replay_concat(s0, d + u, p);
    lemma_replay_concat(s0, d, u);
    let s1 = replay(s0, d);
    let s2 = replay(s1, u);
    let s3 = replay(s2, p);
    lemma_drops(s0, seg.tombstones@, id, k);
    lemma_unlinks(s1, rt, k);
    lemma_puts(s2, cs, i, id);
    lemma_links(s3, rs, e, k);
    assert(forall|j: int| 0 <= j < cs.len() ==> cs[j] == seg.chunks@[j]@);
    assert(forall|j: int| 0 <= j < rs.len() ==> rs[j] == seg.relations@[j]@);
    assert forall|j: int| 0 <= j < rt.len() implies rt[j] == (#[trigger] seg.relation_tombstones@[j])@ by {}
    let unlinked = exists|j: int|
        0 <= j < seg.relation_tombstones@.len() && (#[trigger] seg.relation_tombstones@[j])@ == k;
    if unlinked {
        let j = choose|j: int|
            0 <= j < seg.relation_tombstones@.len() && (#[trigger] seg.relation_tombstones@[j])@
                == k;
        assert(rt[j] == k);
    }
    if rt.contains(k) {
        let j = choose|j: int| 0 <= j < rt.len() && rt[j] == k;
        assert(seg.relation_tombstones@[j]@ == k);
    }
}

} // verus!
