//! Chunk ids over the life of a collection: whatever is ingested, deleted,
//! compacted, reloaded or rebuilt, no id is assigned twice.
use crate::compaction_laws::{
    law_fold_keeps_state, law_high_water_covers, law_merge_is_invisible, law_segments_cover_ids,
    lemma_known_replay,
};
use crate::ids::{counter_after, loaded_next_id, next_free_id, range_ids, IdRange};
use crate::loaded::assigned;
use crate::lsm::{
    apply_segments, dead_chunks, dead_relations, fragment_events, ids_known, lemma_replay_concat,
    lists_dead, lists_live, log_events, lone_tombstone, materialized, nothing_live, replay, Event,
    Fragment, LiveView, Segment,
};
use vstd::prelude::*;

verus! {

/// What decides which ids a node assigns to the chunks of a collection.
pub struct IdState {
    /// The collection is in object storage, with a log.
    pub stored: bool,
    pub segs: Seq<Segment>,
    pub log: Seq<Fragment>,
    /// The node's counter.
    pub next_id: u64,
    /// The next id that the allocator in object storage leases, if there is one.
    pub frontier: Option<u64>,
    /// The ids that the node has leased and not assigned.
    pub pool: Seq<u64>,
    /// The ids assigned so far.
    pub given: Set<u64>,
}

/// What happens to a collection.
pub enum IdStep {
    /// A batch of chunks is ingested. Its ids are leased where there is an
    /// allocator, else counted.
    Ingest(Fragment),
    /// Anything else is written to the log: deletes, edges, chunks that other nodes
    /// have leased ids for.
    Write(Fragment),
    /// The log is folded into a segment.
    Fold(Segment),
    /// All segments and the log are merged into one segment.
    Merge(Segment),
    /// An allocator is made that starts above every id in the store.
    Seed,
    /// The node leases a block of ids.
    Claim(u64),
    /// Another node leases a block of ids.
    ClaimElsewhere(u64),
    /// The node starts again from its disk, where it finds this highest id and so
    /// many chunks.
    Reload(Option<u64>, u64),
    /// The node starts again with an empty disk, from object storage.
    Rebuild,
}

/// What the store adds up to.
pub open spec fn live_state(s: IdState) -> LiveView {
    materialized(s.segs, s.log)
}

/// One past the highest id in the store.
pub open spec fn store_next_id(s: IdState) -> int {
    next_free_id(live_state(s).max_id, live_state(s).assigned)
}

/// The ids of the chunks in a fragment.
pub open spec fn fragment_ids(f: Fragment) -> Seq<u64> {
    match f {
        Fragment::Data(chunks) => Seq::new(chunks@.len(), |i: int| chunks@[i].id),
        _ => Seq::empty(),
    }
}

/// The leased ids for a batch: the first ones of the pool, if there is an allocator.
pub open spec fn lease_for(s: IdState, count: nat) -> Option<Seq<u64>> {
    if s.frontier is Some {
        Some(s.pool.subrange(0, count as int))
    } else {
        None
    }
}

/// The step can be taken.
pub open spec fn step_ok(s: IdState, step: IdStep) -> bool {
    match step {
        IdStep::Ingest(f) => {
            let count = fragment_ids(f).len();
            &&& f is Data
            &&& s.frontier is Some ==> count <= s.pool.len()
            &&& s.frontier is None ==> s.next_id + count <= u64::MAX
            &&& fragment_ids(f) == assigned(lease_for(s, count), s.next_id, count)
            &&& counter_after(lease_for(s, count), s.next_id, count) <= u64::MAX
        },
        IdStep::Write(f) => s.stored,
        IdStep::Fold(seg) => {
            &&& s.stored
            &&& lists_live(seg, replay(nothing_live(), log_events(s.log)))
            &&& lists_dead(seg, dead_chunks(log_events(s.log)), dead_relations(log_events(s.log)))
        },
        IdStep::Merge(seg) => {
            &&& s.stored
            &&& lists_live(seg, live_state(s))
            &&& seg.tombstones@ == lone_tombstone(live_state(s))
            &&& seg.relation_tombstones@.len() == 0
        },
        IdStep::Seed => s.stored && s.frontier is None && store_next_id(s) <= u64::MAX,
        IdStep::Claim(count) => s.frontier matches Some(f) && f + count <= u64::MAX,
        IdStep::ClaimElsewhere(count) => s.frontier matches Some(f) && f + count <= u64::MAX,
        IdStep::Reload(max_seen, chunk_count) => loaded_next_id(s.next_id, max_seen, chunk_count)
            <= u64::MAX,
        IdStep::Rebuild => s.stored && store_next_id(s) <= u64::MAX,
    }
}

/// The state after a step.
pub open spec fn stepped(s: IdState, step: IdStep) -> IdState {
    match step {
        IdStep::Ingest(f) => {
            let count = fragment_ids(f).len();
            IdState {
                log: if s.stored {
                    s.log.push(f)
                } else {
                    s.log
                },
                next_id: counter_after(lease_for(s, count), s.next_id, count) as u64,
                pool: if s.frontier is Some {
                    s.pool.subrange(count as int, s.pool.len() as int)
                } else {
                    s.pool
                },
                given: s.given.union(fragment_ids(f).to_set()),
                ..s
            }
        },
        IdStep::Write(f) => IdState { log: s.log.push(f), ..s },
        IdStep::Fold(seg) => IdState { segs: s.segs.push(seg), log: Seq::empty(), ..s },
        IdStep::Merge(seg) => IdState { segs: seq![seg], log: Seq::empty(), ..s },
        IdStep::Seed => IdState { frontier: Some(store_next_id(s) as u64), ..s },
        IdStep::Claim(count) => IdState {
            pool: s.pool + range_ids(
                IdRange { start: s.frontier->0, end: (s.frontier->0 + count) as u64 },
            ),
            frontier: Some((s.frontier->0 + count) as u64),
            ..s
        },
        IdStep::ClaimElsewhere(count) => IdState {
            frontier: Some((s.frontier->0 + count) as u64),
            ..s
        },
        IdStep::Reload(max_seen, chunk_count) => IdState {
            next_id: loaded_next_id(s.next_id, max_seen, chunk_count) as u64,
            pool: Seq::empty(),
            ..s
        },
        IdStep::Rebuild => IdState {
            next_id: store_next_id(s) as u64,
            pool: Seq::empty(),
            ..s
        },
    }
}

/// The state after a history of steps.
pub open spec fn after_history(s: IdState, steps: Seq<IdStep>) -> IdState
    decreases steps.len(),
{
    if steps.len() == 0 {
        s
    } else {
        stepped(after_history(s, steps.drop_last()), steps.last())
    }
}

/// Every step of a history can be taken.
pub open spec fn history_ok(s: IdState, steps: Seq<IdStep>) -> bool
    decreases steps.len(),
{
    steps.len() > 0 ==> history_ok(s, steps.drop_last()) && step_ok(
        after_history(s, steps.drop_last()),
        steps.last(),
    )
}

/// Nothing was assigned or leased yet.
pub open spec fn fresh_ids(s: IdState) -> bool {
    s.given == Set::<u64>::empty() && s.pool == Seq::<u64>::empty()
}

/// No id that was assigned can be assigned again: it lies below whatever is counted
/// or leased from, and is not in the pool.
pub open spec fn ids_safe(s: IdState) -> bool {
    &&& s.pool.no_duplicates()
    &&& forall|id: u64| #[trigger] s.given.contains(id) ==> !s.pool.contains(id)
    &&& s.frontier matches Some(f) ==> (forall|id: u64| #[trigger] s.given.contains(id) ==> id < f)
        && (forall|id: u64| #[trigger] s.pool.contains(id) ==> id < f)
    &&& s.frontier is None ==> s.pool.len() == 0 && forall|id: u64| #[trigger]
        s.given.contains(id) ==> id < s.next_id
    &&& s.stored ==> forall|id: u64| #[trigger] s.given.contains(id) ==> id < store_next_id(s)
}

proof fn lemma_store_known(s: IdState)
    ensures
        ids_known(live_state(s)),
{
    law_segments_cover_ids(s.segs);
    lemma_known_replay(apply_segments(s.segs), log_events(s.log));
}

/// Writing to the log never lowers the high-water mark, and the mark covers the
/// chunks written.
proof fn lemma_write_covers(s: IdState, f: Fragment)
    ensures
        store_next_id(IdState { log: s.log.push(f), ..s }) >= store_next_id(s),
        forall|id: u64| #[trigger]
            fragment_ids(f).contains(id) ==> id < store_next_id(
                IdState { log: s.log.push(f), ..s },
            ),
{
    let base = apply_segments(s.segs);
    let before = log_events(s.log);
    let more = fragment_events(f);
    assert(s.log.push(f).drop_last() =~= s.log);
    lemma_replay_concat(base, before, more);
    let mid = replay(base, before);
    lemma_store_known(s);
    lemma_known_replay(mid, more);
    assert forall|id: u64| #[trigger] fragment_ids(f).contains(id) implies id < store_next_id(
        IdState { log: s.log.push(f), ..s },
    ) by {
        let i = choose|i: int| 0 <= i < fragment_ids(f).len() && fragment_ids(f)[i] == id;
        assert(more[i] is Put && more[i]->Put_0.id == id);
        law_high_water_covers(mid, more, i);
    }
}

proof fn lemma_ingest_is_safe(s: IdState, f: Fragment)
    requires
        ids_safe(s),
        step_ok(s, IdStep::Ingest(f)),
    ensures
        fragment_ids(f).no_duplicates(),
        forall|id: u64| #[trigger] fragment_ids(f).contains(id) ==> !s.given.contains(id),
        ids_safe(stepped(s, IdStep::Ingest(f))),
{
    let ids = fragment_ids(f);
    let count = ids.len();
    let t = stepped(s, IdStep::Ingest(f));
    crate::ids::lemma_raised(s.next_id as int, ids);
    lemma_write_covers(s, f);
    if s.frontier is Some {
        let rest = s.pool.subrange(count as int, s.pool.len() as int);
        assert(ids =~= s.pool.subrange(0, count as int));
        assert(ids + rest =~= s.pool);
        crate::ids::law_ids_are_handed_out_once(s.pool, ids, rest);
        assert forall|id: u64| #[trigger] ids.contains(id) implies s.pool.contains(id) by {
            let i = choose|i: int| 0 <= i < ids.len() && ids[i] == id;
            assert(s.pool[i] == id);
        }
        assert forall|id: u64| #[trigger] rest.contains(id) implies s.pool.contains(id) by {
            let i = choose|i: int| 0 <= i < rest.len() && rest[i] == id;
            assert(s.pool[count + i] == id);
        }
        assert forall|id: u64| #[trigger] t.given.contains(id) implies !t.pool.contains(id) by {
            if ids.contains(id) {
                assert(ids.contains(id) && !rest.contains(id));
            }
        }
    } else {
        assert forall|i: int| 0 <= i < count implies #[trigger] ids[i] == s.next_id + i by {}
        assert forall|id: u64| #[trigger] ids.contains(id) implies s.next_id <= id < s.next_id
            + count by {
            let i = choose|i: int| 0 <= i < ids.len() && ids[i] == id;
            assert(ids[i] == s.next_id + i);
        }
    }
    assert forall|id: u64| #[trigger] t.given.contains(id) implies s.given.contains(id)
        || ids.contains(id) by {}
}

proof fn lemma_step_is_safe(s: IdState, step: IdStep)
    requires
        ids_safe(s),
        step_ok(s, step),
    ensures
        ids_safe(stepped(s, step)),
{
    let t = stepped(s, step);
    match step {
        IdStep::Ingest(f) => {
            lemma_ingest_is_safe(s, f);
        },
        IdStep::Write(f) => {
            lemma_write_covers(s, f);
        },
        IdStep::Fold(seg) => {
            law_fold_keeps_state(apply_segments(s.segs), log_events(s.log), seg);
            assert(s.segs.push(seg).drop_last() =~= s.segs);
            assert(log_events(Seq::<Fragment>::empty()) =~= Seq::empty());
            assert(store_next_id(t) == store_next_id(s));
        },
        IdStep::Merge(seg) => {
            lemma_store_known(s);
            law_merge_is_invisible(live_state(s), seg);
            assert(store_next_id(t) == store_next_id(s));
        },
        IdStep::Seed => {},
        IdStep::Claim(count) => {
            let f = s.frontier->0;
            let block = range_ids(IdRange { start: f, end: (f + count) as u64 });
            assert forall|id: u64| #[trigger] block.contains(id) implies f <= id < f + count by {
                let i = choose|i: int| 0 <= i < block.len() && block[i] == id;
                assert(block[i] == f + i);
            }
            assert forall|i: int, j: int|
                0 <= i < t.pool.len() && 0 <= j < t.pool.len() && i != j implies t.pool[i]
                != t.pool[j] by {
                if i < s.pool.len() {
                    assert(s.pool.contains(s.pool[i]));
                }
                if j < s.pool.len() {
                    assert(s.pool.contains(s.pool[j]));
                }
            }
            assert forall|id: u64| #[trigger] t.pool.contains(id) implies s.pool.contains(id)
                || block.contains(id) by {
                let i = choose|i: int| 0 <= i < t.pool.len() && t.pool[i] == id;
                if i < s.pool.len() {
                    assert(s.pool[i] == id);
                } else {
                    assert(block[i - s.pool.len()] == id);
                }
            }
        },
        IdStep::ClaimElsewhere(count) => {},
        IdStep::Reload(max_seen, chunk_count) => {},
        IdStep::Rebuild => {},
    }
}

proof fn lemma_history_is_safe(s: IdState, steps: Seq<IdStep>)
    requires
        fresh_ids(s),
        history_ok(s, steps),
    ensures
        ids_safe(after_history(s, steps)),
    decreases steps.len(),
{
    if steps.len() > 0 {
        lemma_history_is_safe(s, steps.drop_last());
        lemma_step_is_safe(after_history(s, steps.drop_last()), steps.last());
    }
}

/// No id is ever assigned twice: after any history of ingests, deletes, compactions,
/// leases and restarts, the ids of the next batch are distinct, and none of them was
/// assigned before, though all those chunks were deleted and compacted away.
pub proof fn law_no_id_is_assigned_twice(start: IdState, steps: Seq<IdStep>, batch: Fragment)
    requires
        fresh_ids(start),
        history_ok(start, steps),
        step_ok(after_history(start, steps), IdStep::Ingest(batch)),
    ensures
        fragment_ids(batch).no_duplicates(),
        forall|id: u64| #[trigger]
            fragment_ids(batch).contains(id) ==> !after_history(start, steps).given.contains(id),
{
    lemma_history_is_safe(start, steps);
    lemma_ingest_is_safe(after_history(start, steps), batch);
}

/// What was assigned stays on record: every id of a batch is among the ids assigned
/// after any further history.
pub proof fn law_assigned_ids_are_remembered(s: IdState, steps: Seq<IdStep>, id: u64)
    requires
        s.given.contains(id),
    ensures
        after_history(s, steps).given.contains(id),
    decreases steps.len(),
{
    if steps.len() > 0 {
        law_assigned_ids_are_remembered(s, steps.drop_last(), id);
    }
}

} // verus!
