//! What compaction keeps: a segment folded from the log stands for that stretch
//! of the log, and a merged segment stands for the whole store.
use crate::assoc::{distinct_keys, has_key, lemma_pairs_at, lemma_pairs_insert, lookup, pairs_map};
use crate::duplicate::text_views;
use crate::ids::next_free_id;
use crate::lsm::{
    apply_segment, apply_segments, chunk_pairs, dead_chunks, dead_relations, drop_events, ids_known,
    knowing, larger, lemma_replay_concat, lemma_replay_keeps_keys, link_events, lists_dead,
    lists_live, log_events, lone_tombstone, materialized, nothing_live, put_events, relation_pairs, replay,
    segment_events, tells_assigned, unlink_events, Event, Fragment, LiveView, Segment,
};
use crate::models::{chunk_views, relation_views, ChunkView, RelationView};
use vstd::prelude::*;

verus! {

/// One of the edge's endpoints is among the chunks.
pub open spec fn touches_any(r: RelationView, ids: Set<u64>) -> bool {
    ids.contains(r.source_chunk_id) || ids.contains(r.target_chunk_id)
}

/// A state with another one laid over it, after deletes on the lower one.
pub open spec fn overlay(
    s: LiveView,
    top: LiveView,
    dead: Set<u64>,
    dead_rel: Set<Seq<char>>,
) -> LiveView {
    LiveView {
        chunks: Map::new(
            |k: u64| top.chunks.contains_key(k) || (s.chunks.contains_key(k) && !dead.contains(k)),
            |k: u64|
                if top.chunks.contains_key(k) {
                    top.chunks[k]
                } else {
                    s.chunks[k]
                },
        ),
        relations: Map::new(
            |k: Seq<char>|
                top.relations.contains_key(k) || (s.relations.contains_key(k)
                    && !dead_rel.contains(k) && !touches_any(s.relations[k], dead)),
            |k: Seq<char>|
                if top.relations.contains_key(k) {
                    top.relations[k]
                } else {
                    s.relations[k]
                },
        ),
        max_id: larger(s.max_id, top.max_id),
        assigned: s.assigned || top.assigned,
    }
}

/// The chunks that some step deletes.
pub open spec fn dropped(events: Seq<Event>) -> Set<u64> {
    Set::new(|id: u64| events.contains(Event::Drop(id)))
}

/// Some step creates the edge.
pub open spec fn linked(events: Seq<Event>, rid: Seq<char>) -> bool {
    exists|i: int|
        0 <= i < events.len() && #[trigger] events[i] is Link && events[i]->Link_0.relation_id
            == rid
}

/// An edge of the older state whose end in the log a segment cannot show: no
/// delete of it is carried, but in the log it was replaced and then fell with a
/// chunk, or it fell with a chunk that came back.
pub open spec fn untold(s: LiveView, events: Seq<Event>, rid: Seq<char>) -> bool {
    &&& s.relations.contains_key(rid)
    &&& !replay(nothing_live(), events).relations.contains_key(rid)
    &&& !dead_relations(events).contains(rid)
    &&& !touches_any(s.relations[rid], dead_chunks(events))
    &&& linked(events, rid) || touches_any(s.relations[rid], dropped(events))
}

// ── Replaying lists ─────────────────────────────────────────────────────

proof fn lemma_replay_drops(s: LiveView, ids: Seq<u64>)
    requires
        forall|i: int| 0 <= i < ids.len() ==> #[trigger] ids[i] <= s.max_id,
    ensures
        replay(s, drop_events(ids)) == overlay(
            s,
            LiveView { assigned: ids.len() > 0, ..nothing_live() },
            ids.to_set(),
            Set::empty(),
        ),
    decreases ids.len(),
{
    let top = LiveView { assigned: ids.len() > 0, ..nothing_live() };
    let after = replay(s, drop_events(ids));
    let want = overlay(s, top, ids.to_set(), Set::empty());
    if ids.len() == 0 {
        assert(after.chunks =~= want.chunks);
        assert(after.relations =~= want.relations);
    } else {
        let init = ids.drop_last();
        let id = ids.last();
        assert forall|i: int| 0 <= i < init.len() implies #[trigger] init[i] <= s.max_id by {
            assert(init[i] == ids[i]);
        }
        lemma_replay_drops(s, init);
        assert(drop_events(ids).drop_last() =~= drop_events(init));
        assert(drop_events(ids).last() == Event::Drop(id));
        assert(ids[ids.len() - 1] <= s.max_id);
        assert forall|x: u64| ids.to_set().contains(x) == (init.to_set().contains(x) || x == id) by {
            lemma_last_contains(ids, x);
        }
        assert(after.chunks =~= want.chunks);
        assert(after.relations =~= want.relations);
    }
}

proof fn lemma_last_contains<A>(s: Seq<A>, x: A)
    requires
        s.len() > 0,
    ensures
        s.contains(x) <==> s.drop_last().contains(x) || x == s.last(),
{
    let init = s.drop_last();
    if s.contains(x) {
        let i = choose|i: int| 0 <= i < s.len() && s[i] == x;
        if i < init.len() {
            assert(init[i] == x);
        }
    }
    if init.contains(x) {
        let i = choose|i: int| 0 <= i < init.len() && init[i] == x;
        assert(s[i] == x);
    }
    if x == s.last() {
        assert(s[s.len() - 1] == x);
    }
}

proof fn lemma_replay_unlinks(s: LiveView, rids: Seq<Seq<char>>)
    ensures
        replay(s, unlink_events(rids)) == overlay(s, nothing_live(), Set::empty(), rids.to_set()),
    decreases rids.len(),
{
    let after = replay(s, unlink_events(rids));
    let want = overlay(s, nothing_live(), Set::empty(), rids.to_set());
    if rids.len() == 0 {
        assert(after.chunks =~= want.chunks);
        assert(after.relations =~= want.relations);
    } else {
        let init = rids.drop_last();
        lemma_replay_unlinks(s, init);
        assert(unlink_events(rids).drop_last() =~= unlink_events(init));
        assert(unlink_events(rids).last() == Event::Unlink(rids.last()));
        assert forall|x: Seq<char>|
            rids.to_set().contains(x) == (init.to_set().contains(x) || x == rids.last()) by {
            lemma_last_contains(rids, x);
        }
        assert(after.chunks =~= want.chunks);
        assert(after.relations =~= want.relations);
    }
}

proof fn lemma_pairs_last<K, V>(s: Seq<(K, V)>)
    requires
        distinct_keys(s),
        s.len() > 0,
    ensures
        distinct_keys(s.drop_last()),
        !pairs_map(s.drop_last()).contains_key(s.last().0),
        pairs_map(s) == pairs_map(s.drop_last()).insert(s.last().0, s.last().1),
{
    let init = s.drop_last();
    assert forall|i: int, j: int| 0 <= i < j < init.len() implies (#[trigger] init[i]).0 != (
    #[trigger] init[j]).0 by {
        assert(s[i].0 != s[j].0);
    }
    assert(!has_key(init, s.last().0)) by {
        if has_key(init, s.last().0) {
            let i = choose|i: int| 0 <= i < init.len() && (#[trigger] init[i]).0 == s.last().0;
            assert(s[i].0 != s[s.len() - 1].0);
        }
    }
    lemma_pairs_insert(init, init.len() as int, s.last().0, s.last().1);
    assert(init.insert(init.len() as int, s.last()) =~= s);
}

proof fn lemma_replay_puts(s: LiveView, chunks: Seq<ChunkView>)
    requires
        distinct_keys(chunk_pairs(chunks)),
        forall|i: int| 0 <= i < chunks.len() ==> (#[trigger] chunks[i]).id <= s.max_id,
    ensures
        replay(s, put_events(chunks)) == overlay(
            s,
            LiveView {
                chunks: pairs_map(chunk_pairs(chunks)),
                assigned: chunks.len() > 0,
                ..nothing_live()
            },
            Set::empty(),
            Set::empty(),
        ),
    decreases chunks.len(),
{
    let top = LiveView {
        chunks: pairs_map(chunk_pairs(chunks)),
        assigned: chunks.len() > 0,
        ..nothing_live()
    };
    let after = replay(s, put_events(chunks));
    let want = overlay(s, top, Set::empty(), Set::empty());
    if chunks.len() == 0 {
        assert(top.chunks =~= Map::empty());
        assert(after.chunks =~= want.chunks);
        assert(after.relations =~= want.relations);
    } else {
        let init = chunks.drop_last();
        let c = chunks.last();
        let pairs = chunk_pairs(chunks);
        assert(pairs.drop_last() =~= chunk_pairs(init));
        lemma_pairs_last(pairs);
        assert forall|i: int| 0 <= i < init.len() implies (#[trigger] init[i]).id <= s.max_id by {
            assert(init[i] == chunks[i]);
        }
        lemma_replay_puts(s, init);
        assert(put_events(chunks).drop_last() =~= put_events(init));
        assert(put_events(chunks).last() == Event::Put(c));
        assert(chunks[chunks.len() - 1].id <= s.max_id);
        assert(after.chunks =~= want.chunks);
        assert(after.relations =~= want.relations);
    }
}

proof fn lemma_replay_links(s: LiveView, rels: Seq<RelationView>)
    requires
        distinct_keys(relation_pairs(rels)),
    ensures
        replay(s, link_events(rels)) == overlay(
            s,
            LiveView { relations: pairs_map(relation_pairs(rels)), ..nothing_live() },
            Set::empty(),
            Set::empty(),
        ),
    decreases rels.len(),
{
    let top = LiveView { relations: pairs_map(relation_pairs(rels)), ..nothing_live() };
    let after = replay(s, link_events(rels));
    let want = overlay(s, top, Set::empty(), Set::empty());
    if rels.len() == 0 {
        assert(top.relations =~= Map::empty());
        assert(after.chunks =~= want.chunks);
        assert(after.relations =~= want.relations);
    } else {
        let init = rels.drop_last();
        let pairs = relation_pairs(rels);
        assert(pairs.drop_last() =~= relation_pairs(init));
        lemma_pairs_last(pairs);
        lemma_replay_links(s, init);
        assert(link_events(rels).drop_last() =~= link_events(init));
        assert(link_events(rels).last() == Event::Link(rels.last()));
        assert(after.chunks =~= want.chunks);
        assert(after.relations =~= want.relations);
    }
}

/// A segment on top of a state is its contents laid over what its deletes leave.
proof fn lemma_segment_is_overlay(
    s: LiveView,
    seg: Segment,
    top: LiveView,
    dead: Set<u64>,
    dead_rel: Set<Seq<char>>,
)
    requires
        lists_live(seg, top),
        seg.tombstones@.to_set() == dead,
        text_views(seg.relation_tombstones@).to_set() == dead_rel,
        ids_known(top),
        forall|id: u64| #[trigger] dead.contains(id) ==> id <= top.max_id,
    ensures
        apply_segment(s, seg) == overlay(s, top, dead, dead_rel),
{
    let ids = seg.tombstones@;
    let rids = text_views(seg.relation_tombstones@);
    let cs = chunk_views(seg.chunks@);
    let rs = relation_views(seg.relations@);
    let s0 = knowing(s, seg.max_id);
    assert forall|i: int| 0 <= i < ids.len() implies #[trigger] ids[i] <= s0.max_id by {
        assert(ids.to_set().contains(ids[i]));
        assert(dead.contains(ids[i]));
    }
    lemma_replay_drops(s0, ids);
    let s1 = replay(s0, drop_events(ids));
    lemma_replay_unlinks(s1, rids);
    let s2 = replay(s1, unlink_events(rids));
    assert(distinct_keys(chunk_pairs(cs)));
    assert forall|i: int| 0 <= i < cs.len() implies (#[trigger] cs[i]).id <= s2.max_id by {
        lemma_pairs_at(chunk_pairs(cs), i);
        assert(top.chunks.contains_key(cs[i].id));
    }
    lemma_replay_puts(s2, cs);
    let s3 = replay(s2, put_events(cs));
    lemma_replay_links(s3, rs);
    lemma_replay_concat(s0, drop_events(ids), unlink_events(rids));
    lemma_replay_concat(s0, drop_events(ids) + unlink_events(rids), put_events(cs));
    lemma_replay_concat(
        s0,
        drop_events(ids) + unlink_events(rids) + put_events(cs),
        link_events(rs),
    );
    let got = apply_segment(s, seg);
    let want = overlay(s, top, dead, dead_rel);
    assert(got.chunks =~= want.chunks);
    assert(got.relations =~= want.relations);
}

// ── The log and its fold ────────────────────────────────────────────────

proof fn lemma_fold_facts(events: Seq<Event>)
    ensures
        ids_known(replay(nothing_live(), events)),
        forall|id: u64| #[trigger]
            dead_chunks(events).contains(id) ==> id <= replay(nothing_live(), events).max_id
                && events.contains(Event::Drop(id)),
        forall|k: Seq<char>| #[trigger]
            replay(nothing_live(), events).relations.contains_key(k) ==> linked(events, k)
                && !dead_relations(events).contains(k),
    decreases events.len(),
{
    lemma_replay_keeps_keys(nothing_live(), events);
    if events.len() > 0 {
        let init = events.drop_last();
        lemma_fold_facts(init);
        assert forall|id: u64| #[trigger] dead_chunks(events).contains(id) implies id <= replay(
            nothing_live(),
            events,
        ).max_id && events.contains(Event::Drop(id)) by {
            lemma_last_contains(events, Event::Drop(id));
            if dead_chunks(init).contains(id) {
                assert(id <= replay(nothing_live(), init).max_id);
            }
        }
        assert forall|k: Seq<char>| #[trigger]
            replay(nothing_live(), events).relations.contains_key(k) implies linked(events, k)
            && !dead_relations(events).contains(k) by {
            lemma_linked_last(events, k);
        }
    }
}

proof fn lemma_linked_last(events: Seq<Event>, k: Seq<char>)
    requires
        events.len() > 0,
    ensures
        linked(events, k) <==> linked(events.drop_last(), k) || (events.last() is Link
            && events.last()->Link_0.relation_id == k),
{
    let init = events.drop_last();
    if linked(events, k) {
        let i = choose|i: int|
            0 <= i < events.len() && #[trigger] events[i] is Link && events[i]->Link_0.relation_id
                == k;
        if i < init.len() {
            assert(init[i] is Link);
        }
    }
    if linked(init, k) {
        let i = choose|i: int|
            0 <= i < init.len() && #[trigger] init[i] is Link && init[i]->Link_0.relation_id == k;
        assert(events[i] is Link);
    }
    if events.last() is Link && events.last()->Link_0.relation_id == k {
        assert(events[events.len() - 1] is Link);
    }
}

/// Where an edge stands after the log, told from the fold of the log.
spec fn edge_after(s: LiveView, events: Seq<Event>, k: Seq<char>) -> Option<RelationView> {
    let top = replay(nothing_live(), events);
    if top.relations.contains_key(k) {
        Some(top.relations[k])
    } else if !s.relations.contains_key(k) || dead_relations(events).contains(k) || linked(
        events,
        k,
    ) || touches_any(s.relations[k], dropped(events)) {
        None
    } else {
        Some(s.relations[k])
    }
}

proof fn lemma_edge_after(s: LiveView, events: Seq<Event>, k: Seq<char>)
    ensures
        lookup(replay(s, events).relations, k) == edge_after(s, events, k),
    decreases events.len(),
{
    if events.len() > 0 {
        let init = events.drop_last();
        let e = events.last();
        lemma_edge_after(s, init, k);
        lemma_fold_facts(init);
        lemma_linked_last(events, k);
        assert forall|id: u64|
            dropped(events).contains(id) == (dropped(init).contains(id) || e == Event::Drop(id)) by {
            lemma_last_contains(events, Event::Drop(id));
        }
    }
}

proof fn lemma_chunks_after(s: LiveView, events: Seq<Event>)
    ensures
        replay(s, events).chunks == overlay(
            s,
            replay(nothing_live(), events),
            dead_chunks(events),
            dead_relations(events),
        ).chunks,
        replay(s, events).max_id == larger(s.max_id, replay(nothing_live(), events).max_id),
        replay(s, events).assigned == (s.assigned || replay(nothing_live(), events).assigned),
    decreases events.len(),
{
    let want = overlay(
        s,
        replay(nothing_live(), events),
        dead_chunks(events),
        dead_relations(events),
    );
    if events.len() > 0 {
        lemma_chunks_after(s, events.drop_last());
    }
    assert(replay(s, events).chunks =~= want.chunks);
}

// ── Laws ────────────────────────────────────────────────────────────────

/// Folding the log into a segment keeps the live chunks and how far ids were
/// assigned, always, and keeps every edge but the untold ones; those, and only
/// those, come out otherwise.
pub proof fn law_fold_keeps_state(s: LiveView, events: Seq<Event>, seg: Segment)
    requires
        lists_live(seg, replay(nothing_live(), events)),
        lists_dead(seg, dead_chunks(events), dead_relations(events)),
    ensures
        apply_segment(s, seg).chunks == replay(s, events).chunks,
        apply_segment(s, seg).max_id == replay(s, events).max_id,
        apply_segment(s, seg).assigned == replay(s, events).assigned,
        forall|k: Seq<char>|
            lookup(#[trigger] apply_segment(s, seg).relations, k) == lookup(
                replay(s, events).relations,
                k,
            ) <==> !untold(s, events, k),
{
    let top = replay(nothing_live(), events);
    lemma_fold_facts(events);
    lemma_segment_is_overlay(s, seg, top, dead_chunks(events), dead_relations(events));
    lemma_chunks_after(s, events);
    let o = apply_segment(s, seg).relations;
    assert forall|k: Seq<char>|
        lookup(o, k) == lookup(replay(s, events).relations, k) <==> !untold(s, events, k) by {
        lemma_edge_after(s, events, k);
        assert(forall|id: u64|
            dead_chunks(events).contains(id) ==> #[trigger] dropped(events).contains(id));
    }
}

/// No chunk comes back after its delete.
pub open spec fn never_revived(events: Seq<Event>) -> bool {
    forall|i: int, j: int|
        0 <= i < j < events.len() && #[trigger] events[i] is Drop && #[trigger] events[j] is Put
            ==> events[i]->Drop_0 != events[j]->Put_0.id
}

/// No step creates an edge that the older state already has.
pub open spec fn fresh_edges(s: LiveView, events: Seq<Event>) -> bool {
    forall|i: int|
        0 <= i < events.len() && #[trigger] events[i] is Link ==> !s.relations.contains_key(
            events[i]->Link_0.relation_id,
        )
}

proof fn lemma_dead_is_dropped(events: Seq<Event>)
    requires
        never_revived(events),
    ensures
        dead_chunks(events) == dropped(events),
    decreases events.len(),
{
    if events.len() == 0 {
        assert(dead_chunks(events) =~= dropped(events));
    } else {
        let init = events.drop_last();
        assert forall|i: int, j: int|
            0 <= i < j < init.len() && #[trigger] init[i] is Drop && #[trigger] init[j] is Put implies
            init[i]->Drop_0 != init[j]->Put_0.id by {
            assert(events[i] is Drop && events[j] is Put);
        }
        lemma_dead_is_dropped(init);
        assert forall|id: u64| dead_chunks(events).contains(id) == dropped(events).contains(id) by {
            lemma_last_contains(events, Event::Drop(id));
            if events.last() is Put && events.last()->Put_0.id == id && init.contains(
                Event::Drop(id),
            ) {
                let i = choose|i: int| 0 <= i < init.len() && init[i] == Event::Drop(id);
                assert(events[i] is Drop && events[events.len() - 1] is Put);
            }
        }
        assert(dead_chunks(events) =~= dropped(events));
    }
}

/// When ids are never reused, as the allocator sees to, folding the log into a
/// segment changes nothing at all.
pub proof fn law_fold_is_invisible(s: LiveView, events: Seq<Event>, seg: Segment)
    requires
        lists_live(seg, replay(nothing_live(), events)),
        lists_dead(seg, dead_chunks(events), dead_relations(events)),
        never_revived(events),
        fresh_edges(s, events),
    ensures
        apply_segment(s, seg) == replay(s, events),
{
    law_fold_keeps_state(s, events, seg);
    lemma_dead_is_dropped(events);
    let a = apply_segment(s, seg).relations;
    let b = replay(s, events).relations;
    assert forall|k: Seq<char>| lookup(a, k) == lookup(b, k) by {
        assert(!untold(s, events, k)) by {
            if s.relations.contains_key(k) && linked(events, k) {
                let i = choose|i: int|
                    0 <= i < events.len() && #[trigger] events[i] is Link
                        && events[i]->Link_0.relation_id == k;
                assert(!s.relations.contains_key(events[i]->Link_0.relation_id));
            }
        }
    }
    assert forall|k: Seq<char>| #[trigger] a.dom().contains(k) == b.dom().contains(k) by {
        assert(lookup(a, k) == lookup(b, k));
    }
    assert forall|k: Seq<char>| #[trigger] a.contains_key(k) implies a[k] == b[k] by {
        assert(lookup(a, k) == lookup(b, k));
    }
    assert(a =~= b);
}

/// One segment that lists a whole state, alone in the store, gives that state
/// back: merging the segments of a store changes nothing.
pub proof fn law_merge_is_invisible(live: LiveView, seg: Segment)
    requires
        ids_known(live),
        lists_live(seg, live),
        seg.tombstones@ == lone_tombstone(live),
        seg.relation_tombstones@.len() == 0,
    ensures
        materialized(seq![seg], Seq::<Fragment>::empty()) == live,
{
    let dead = seg.tombstones@.to_set();
    assert(text_views(seg.relation_tombstones@).to_set() =~= Set::empty());
    lemma_segment_is_overlay(nothing_live(), seg, live, dead, Set::empty());
    assert(seq![seg].drop_last() =~= Seq::empty());
    reveal_with_fuel(apply_segments, 2);
    assert(apply_segments(seq![seg]) == apply_segment(nothing_live(), seg));
    let got = materialized(seq![seg], Seq::<Fragment>::empty());
    assert(log_events(Seq::<Fragment>::empty()) =~= Seq::empty());
    assert(got.chunks =~= live.chunks);
    assert(got.relations =~= live.relations);
}

/// Appending the fold of the log as a segment, and clearing the log, leaves the
/// store adding up to the same.
pub proof fn law_compaction_is_invisible(segs: Seq<Segment>, log: Seq<Fragment>, seg: Segment)
    requires
        lists_live(seg, replay(nothing_live(), log_events(log))),
        lists_dead(seg, dead_chunks(log_events(log)), dead_relations(log_events(log))),
        never_revived(log_events(log)),
        fresh_edges(apply_segments(segs), log_events(log)),
    ensures
        materialized(segs.push(seg), Seq::<Fragment>::empty()) == materialized(segs, log),
{
    assert(segs.push(seg).drop_last() =~= segs);
    law_fold_is_invisible(apply_segments(segs), log_events(log), seg);
    assert(log_events(Seq::<Fragment>::empty()) =~= Seq::empty());
}

/// A deleted chunk stays deleted: unless a later step puts it back, it is not
/// live, however often it was put in before.
pub proof fn law_deleted_stays_deleted(s: LiveView, before: Seq<Event>, id: u64, after: Seq<Event>)
    requires
        forall|i: int|
            0 <= i < after.len() && #[trigger] after[i] is Put ==> after[i]->Put_0.id != id,
    ensures
        !replay(s, before.push(Event::Drop(id)) + after).chunks.contains_key(id),
    decreases after.len(),
{
    let events = before.push(Event::Drop(id)) + after;
    if after.len() == 0 {
        assert(events =~= before.push(Event::Drop(id)));
        assert(events.drop_last() =~= before);
    } else {
        let init = after.drop_last();
        assert(events.drop_last() =~= before.push(Event::Drop(id)) + init);
        assert(events.last() == after.last());
        assert forall|i: int| 0 <= i < init.len() && #[trigger] init[i] is Put implies
            init[i]->Put_0.id != id by {
            assert(after[i] is Put);
        }
        law_deleted_stays_deleted(s, before, id, init);
        assert(after[after.len() - 1] == after.last());
    }
}

/// The latest word wins: a chunk is live as it was last put, when no later step
/// puts it again or deletes it.
pub proof fn law_latest_wins(s: LiveView, before: Seq<Event>, c: ChunkView, after: Seq<Event>)
    requires
        forall|i: int|
            0 <= i < after.len() && #[trigger] after[i] is Put ==> after[i]->Put_0.id != c.id,
        forall|i: int| 0 <= i < after.len() && #[trigger] after[i] is Drop ==> after[i]->Drop_0 != c.id,
    ensures
        lookup(replay(s, before.push(Event::Put(c)) + after).chunks, c.id) == Some(c),
    decreases after.len(),
{
    let events = before.push(Event::Put(c)) + after;
    if after.len() == 0 {
        assert(events =~= before.push(Event::Put(c)));
        assert(events.drop_last() =~= before);
    } else {
        let init = after.drop_last();
        assert(events.drop_last() =~= before.push(Event::Put(c)) + init);
        assert(events.last() == after.last());
        assert forall|i: int| 0 <= i < init.len() && #[trigger] init[i] is Put implies
            init[i]->Put_0.id != c.id by {
            assert(after[i] is Put);
        }
        assert forall|i: int| 0 <= i < init.len() && #[trigger] init[i] is Drop implies
            init[i]->Drop_0 != c.id by {
            assert(after[i] is Drop);
        }
        law_latest_wins(s, before, c, init);
        assert(after[after.len() - 1] == after.last());
    }
}

/// The high-water mark covers every id that a log mentions.
pub proof fn law_high_water_covers(s: LiveView, events: Seq<Event>, i: int)
    requires
        0 <= i < events.len(),
    ensures
        s.max_id <= replay(s, events).max_id,
        events[i] matches Event::Put(c) ==> c.id <= replay(s, events).max_id,
        events[i] matches Event::Drop(id) ==> id <= replay(s, events).max_id,
        events[i] is Put || events[i] is Drop || s.assigned ==> replay(s, events).assigned,
    decreases events.len(),
{
    reveal_with_fuel(replay, 2);
    let init = events.drop_last();
    if i < init.len() {
        law_high_water_covers(s, init, i);
        assert(init[i] == events[i]);
    } else if init.len() > 0 {
        law_high_water_covers(s, init, 0);
    }
}

/// A batch that was taken back is gone: after a tombstone for its ids, none of
/// them is live, whatever was put in before.
pub proof fn law_taken_back_is_gone(s: LiveView, before: Seq<Event>, ids: Seq<u64>, id: u64)
    requires
        ids.contains(id),
    ensures
        !replay(s, before + drop_events(ids)).chunks.contains_key(id),
{
    let k = choose|k: int| 0 <= k < ids.len() && ids[k] == id;
    let head = before + drop_events(ids.subrange(0, k));
    let rest = drop_events(ids.subrange(k + 1, ids.len() as int));
    law_deleted_stays_deleted(s, head, id, rest);
    assert(before + drop_events(ids) =~= head.push(Event::Drop(id)) + rest);
}

/// Edges that were taken back are gone: after a delete of their ids, none of
/// them is live, whatever was put in before.
pub proof fn law_taken_back_edges_are_gone(
    s: LiveView,
    before: Seq<Event>,
    ids: Seq<Seq<char>>,
    id: Seq<char>,
)
    requires
        ids.contains(id),
    ensures
        !replay(s, before + unlink_events(ids)).relations.contains_key(id),
    decreases ids.len(),
{
    let init = ids.drop_last();
    let events = before + unlink_events(ids);
    assert(events.drop_last() =~= before + unlink_events(init));
    assert(events.last() == Event::Unlink(ids.last()));
    if id != ids.last() {
        let k = choose|k: int| 0 <= k < ids.len() && ids[k] == id;
        assert(init[k] == id);
        law_taken_back_edges_are_gone(s, before, init, id);
    }
}

/// The segments of a store tell of every id that they hold or delete.
pub proof fn law_segments_cover_ids(segs: Seq<Segment>)
    ensures
        ids_known(apply_segments(segs)),
        forall|i: int|
            0 <= i < segs.len() ==> (#[trigger] segs[i]).max_id <= apply_segments(segs).max_id && (
            tells_assigned(segs[i]) ==> apply_segments(segs).assigned),
    decreases segs.len(),
{
    if segs.len() > 0 {
        let init = segs.drop_last();
        let seg = segs.last();
        law_segments_cover_ids(init);
        let s = knowing(apply_segments(init), seg.max_id);
        let events = segment_events(seg);
        lemma_known_replay(s, events);
        if seg.tombstones@.len() > 0 {
            assert(events[0] == Event::Drop(seg.tombstones@[0]));
            law_high_water_covers(s, events, 0);
        }
        if seg.chunks@.len() > 0 {
            let at = (seg.tombstones@.len() + seg.relation_tombstones@.len()) as int;
            assert(events[at] == Event::Put(seg.chunks@[0]@));
            law_high_water_covers(s, events, at);
        }
        assert forall|i: int| 0 <= i < segs.len() implies (#[trigger] segs[i]).max_id
            <= apply_segments(segs).max_id && (tells_assigned(segs[i]) ==> apply_segments(
            segs,
        ).assigned) by {
            if i < init.len() {
                assert(init[i] == segs[i]);
            }
        }
    }
}

pub proof fn lemma_known_replay(s: LiveView, events: Seq<Event>)
    requires
        ids_known(s),
    ensures
        ids_known(replay(s, events)),
        s.max_id <= replay(s, events).max_id,
        s.assigned ==> replay(s, events).assigned,
    decreases events.len(),
{
    if events.len() > 0 {
        lemma_known_replay(s, events.drop_last());
    }
}

/// A collection that is rebuilt from the store never assigns an id again: the
/// next free id is above every id that the log put in or deleted, and above
/// every id that the segments know of, though none of them be live.
pub proof fn law_rebuild_never_reuses(segs: Seq<Segment>, log: Seq<Fragment>)
    ensures
        ({
            let live = materialized(segs, log);
            let next = next_free_id(live.max_id, live.assigned);
            &&& forall|i: int|
                0 <= i < log_events(log).len() ==> (#[trigger] log_events(log)[i] matches Event::Put(
                    c,
                ) ==> c.id < next) && (log_events(log)[i] matches Event::Drop(id) ==> id < next)
            &&& forall|i: int|
                0 <= i < segs.len() && tells_assigned(#[trigger] segs[i]) ==> segs[i].max_id < next
            &&& forall|id: u64| #[trigger] live.chunks.contains_key(id) ==> id < next
        }),
{
    let s = apply_segments(segs);
    let events = log_events(log);
    law_segments_cover_ids(segs);
    lemma_known_replay(s, events);
    assert forall|i: int| 0 <= i < events.len() implies (#[trigger] events[i] matches Event::Put(
        c,
    ) ==> c.id < next_free_id(replay(s, events).max_id, replay(s, events).assigned)) && (
    events[i] matches Event::Drop(id) ==> id < next_free_id(
        replay(s, events).max_id,
        replay(s, events).assigned,
    )) by {
        law_high_water_covers(s, events, i);
    }
}

/// The number of records that a compaction reports after a fold is the number of
/// live chunks before it: deleted ones are not counted.
pub proof fn law_fold_reports_live(segs: Seq<Segment>, log: Seq<Fragment>, seg: Segment)
    requires
        lists_live(seg, replay(nothing_live(), log_events(log))),
        lists_dead(seg, dead_chunks(log_events(log)), dead_relations(log_events(log))),
    ensures
        apply_segments(segs.push(seg)).chunks == materialized(segs, log).chunks,
{
    assert(segs.push(seg).drop_last() =~= segs);
    law_fold_keeps_state(apply_segments(segs), log_events(log), seg);
}

} // verus!
