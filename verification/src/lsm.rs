//! The log-structured store of a collection: what its segments and the log
//! after them add up to.
//!
//! The store is a list of segments, oldest first, and a log of fragments in
//! sequence order. Segments are applied first, then the fragments; the latest
//! word on an id wins, and deletes apply to everything older.
use crate::assoc::{distinct_keys, has_key, lemma_pairs_at, pairs_map};
use crate::duplicate::text_views;
use crate::id_map::{in_id_order, IdMap};
use crate::models::{
    chunk_views, relation_views, ChunkRelation, ChunkView, DocumentChunk, RelationView,
};
use crate::order::text_lt;
use crate::string_map::StringMap;
use vstd::prelude::*;
use vstd::string::*;

verus! {

/// One entry of the log, decoded.
#[derive(Debug)]
pub enum Fragment {
    /// Chunks to be put in.
    Data(Vec<DocumentChunk>),
    /// Ids of chunks to be deleted.
    Tombstone(Vec<u64>),
    /// Edges to be put in.
    RelationUpsert(Vec<ChunkRelation>),
    /// Ids of edges to be deleted.
    RelationDelete(Vec<String>),
}

/// One step of the log.
#[verifier::ext_equal]
pub enum Event {
    Put(ChunkView),
    Drop(u64),
    Link(RelationView),
    Unlink(Seq<char>),
}

/// The steps of a fragment, in order.
pub open spec fn fragment_events(f: Fragment) -> Seq<Event> {
    match f {
        Fragment::Data(c) => put_events(chunk_views(c@)),
        Fragment::Tombstone(ids) => drop_events(ids@),
        Fragment::RelationUpsert(r) => link_events(relation_views(r@)),
        Fragment::RelationDelete(ids) => unlink_events(text_views(ids@)),
    }
}

pub open spec fn put_events(s: Seq<ChunkView>) -> Seq<Event> {
    Seq::new(s.len(), |i: int| Event::Put(s[i]))
}

pub open spec fn drop_events(s: Seq<u64>) -> Seq<Event> {
    Seq::new(s.len(), |i: int| Event::Drop(s[i]))
}

pub open spec fn link_events(s: Seq<RelationView>) -> Seq<Event> {
    Seq::new(s.len(), |i: int| Event::Link(s[i]))
}

pub open spec fn unlink_events(s: Seq<Seq<char>>) -> Seq<Event> {
    Seq::new(s.len(), |i: int| Event::Unlink(s[i]))
}

/// The steps of a log, in order.
pub open spec fn log_events(log: Seq<Fragment>) -> Seq<Event>
    decreases log.len(),
{
    if log.len() == 0 {
        Seq::empty()
    } else {
        log_events(log.drop_last()) + fragment_events(log.last())
    }
}

/// A segment: the outcome of a stretch of the log, with the deletes that older
/// segments must still hear of.
#[derive(Debug)]
pub struct Segment {
    pub version: u8,
    pub chunks: Vec<DocumentChunk>,
    pub relations: Vec<ChunkRelation>,
    /// The highest chunk id ever assigned, deleted ones included.
    pub max_id: u64,
    /// Chunks deleted in older segments.
    pub tombstones: Vec<u64>,
    /// Edges deleted in older segments.
    pub relation_tombstones: Vec<String>,
}

/// The steps of a segment: its deletes, then what it holds.
pub open spec fn segment_events(s: Segment) -> Seq<Event> {
    drop_events(s.tombstones@) + unlink_events(text_views(s.relation_tombstones@)) + put_events(
        chunk_views(s.chunks@),
    ) + link_events(relation_views(s.relations@))
}

/// The live state of a collection.
#[derive(Debug)]
pub struct Materialized {
    /// Live chunks by id.
    pub chunks: IdMap<DocumentChunk>,
    /// Live edges by relation id.
    pub relations: StringMap<ChunkRelation>,
    /// The highest chunk id ever seen, deleted ones included.
    pub max_id: u64,
    /// A chunk id was ever seen: 0 as the highest one may be an id or none.
    pub assigned: bool,
}

/// What a live state holds.
#[verifier::ext_equal]
pub struct LiveView {
    pub chunks: Map<u64, ChunkView>,
    pub relations: Map<Seq<char>, RelationView>,
    pub max_id: u64,
    pub assigned: bool,
}

impl View for Materialized {
    type V = LiveView;

    open spec fn view(&self) -> LiveView {
        LiveView {
            chunks: self.chunks@,
            relations: self.relations@,
            max_id: self.max_id,
            assigned: self.assigned,
        }
    }
}

/// The larger of two ids.
pub open spec fn larger(a: u64, b: u64) -> u64 {
    if a < b {
        b
    } else {
        a
    }
}

/// The edge has the chunk as an endpoint.
pub open spec fn touches(r: RelationView, id: u64) -> bool {
    r.source_chunk_id == id || r.target_chunk_id == id
}

/// The edges that do not touch a chunk.
pub open spec fn without_incident(m: Map<Seq<char>, RelationView>, id: u64) -> Map<
    Seq<char>,
    RelationView,
> {
    Map::new(|k: Seq<char>| m.contains_key(k) && !touches(m[k], id), |k: Seq<char>| m[k])
}

/// Nothing.
pub open spec fn nothing_live() -> LiveView {
    LiveView { chunks: Map::empty(), relations: Map::empty(), max_id: 0, assigned: false }
}

/// A live state after one step. Deleting a chunk deletes its edges.
pub open spec fn apply_event(s: LiveView, e: Event) -> LiveView {
    match e {
        Event::Put(c) => LiveView {
            chunks: s.chunks.insert(c.id, c),
            max_id: larger(s.max_id, c.id),
            assigned: true,
            ..s
        },
        Event::Drop(id) => LiveView {
            chunks: s.chunks.remove(id),
            relations: without_incident(s.relations, id),
            max_id: larger(s.max_id, id),
            assigned: true,
        },
        Event::Link(r) => LiveView { relations: s.relations.insert(r.relation_id, r), ..s },
        Event::Unlink(rid) => LiveView { relations: s.relations.remove(rid), ..s },
    }
}

/// A live state after a sequence of steps.
pub open spec fn replay(s: LiveView, events: Seq<Event>) -> LiveView
    decreases events.len(),
{
    if events.len() == 0 {
        s
    } else {
        apply_event(replay(s, events.drop_last()), events.last())
    }
}

/// A live state that has heard of a high-water mark. A mark of 0 does not tell
/// whether any id was assigned.
pub open spec fn knowing(s: LiveView, id: u64) -> LiveView {
    LiveView { max_id: larger(s.max_id, id), assigned: s.assigned || id > 0, ..s }
}

/// A live state with a segment on top.
pub open spec fn apply_segment(s: LiveView, seg: Segment) -> LiveView {
    replay(knowing(s, seg.max_id), segment_events(seg))
}

/// What a list of segments adds up to.
pub open spec fn apply_segments(segs: Seq<Segment>) -> LiveView
    decreases segs.len(),
{
    if segs.len() == 0 {
        nothing_live()
    } else {
        apply_segment(apply_segments(segs.drop_last()), segs.last())
    }
}

/// What the store adds up to: its segments, then its log.
pub open spec fn materialized(segs: Seq<Segment>, log: Seq<Fragment>) -> LiveView {
    replay(apply_segments(segs), log_events(log))
}

proof fn lemma_replay_push(s: LiveView, events: Seq<Event>, e: Event)
    ensures
        replay(s, events.push(e)) == apply_event(replay(s, events), e),
{
    assert(events.push(e).drop_last() =~= events);
}

/// Replaying one stretch after another is replaying both.
pub proof fn lemma_replay_concat(s: LiveView, a: Seq<Event>, b: Seq<Event>)
    ensures
        replay(s, a + b) == replay(replay(s, a), b),
    decreases b.len(),
{
    if b.len() == 0 {
        assert(a + b =~= a);
    } else {
        assert((a + b).drop_last() =~= a + b.drop_last());
        assert((a + b).last() == b.last());
        lemma_replay_concat(s, a, b.drop_last());
    }
}

/// Deletes the edges that touch a chunk.
fn unlink_incident(relations: &mut StringMap<ChunkRelation>, id: u64)
    ensures
        final(relations)@ == without_incident(old(relations)@, id),
{
    let ghost before = relations@;
    let mut i: usize = 0;
    let mut n: usize = relations.len();
    while i < n
        invariant
            n == relations.pairs().len(),
            i <= n,
            relations@ == pairs_map(relations.pairs()),
            distinct_keys(relations.pairs()),
            forall|j: int| 0 <= j < i ==> !touches((#[trigger] relations.pairs()[j]).1, id),
            forall|k: Seq<char>| #[trigger]
                relations@.contains_key(k) ==> before.contains_key(k) && relations@[k] == before[k],
            forall|k: Seq<char>| #[trigger]
                before.contains_key(k) && !relations@.contains_key(k) ==> touches(before[k], id),
        decreases n - i,
    {
        let r = relations.value_at(i);
        if r.source_chunk_id == id || r.target_chunk_id == id {
            let ghost earlier = relations@;
            relations.remove_at(i);
            n = n - 1;
        } else {
            i = i + 1;
        }
    }
    proof {
        assert forall|k: Seq<char>| #[trigger] relations@.contains_key(k) implies !touches(
            relations@[k],
            id,
        ) by {
            let j = choose|j: int|
                0 <= j < relations.pairs().len() && (#[trigger] relations.pairs()[j]).0 == k;
            lemma_pairs_at(relations.pairs(), j);
        }
        assert(relations@ =~= without_incident(before, id));
    }
}

impl Materialized {
    /// An empty state.
    pub fn new() -> (r: Materialized)
        ensures
            r@ == nothing_live(),
    {
        Materialized {
            chunks: IdMap::new(),
            relations: StringMap::new(),
            max_id: 0,
            assigned: false,
        }
    }

    /// Takes note of a high-water mark.
    fn know(&mut self, id: u64)
        ensures
            final(self)@ == knowing(old(self)@, id),
    {
        if id > 0 {
            self.assigned = true;
        }
        if self.max_id < id {
            self.max_id = id;
        }
    }

    fn put_all(&mut self, chunks: Vec<DocumentChunk>)
        ensures
            final(self)@ == replay(old(self)@, put_events(chunk_views(chunks@))),
    {
        let ghost all = put_events(chunk_views(chunks@));
        let ghost start = self@;
        let ghost items = chunks@;
        proof {
            assert(all.subrange(0, 0) =~= Seq::empty());
        }
        let mut done: Ghost<int> = Ghost(0);
        for chunk in it: chunks
            invariant
                it.seq() == items,
                done@ == it.index(),
                0 <= done@ <= items.len(),
                all == put_events(chunk_views(items)),
                self@ == replay(start, all.subrange(0, done@)),
        {
            let id: u64 = chunk.id;
            self.know(id);
            self.assigned = true;
            self.chunks.insert(id, chunk);
            proof {
                let prefix = all.subrange(0, done@);
                assert(all.subrange(0, done@ + 1) =~= prefix.push(Event::Put(items[done@]@)));
                lemma_replay_push(start, prefix, Event::Put(items[done@]@));
                done@ = done@ + 1;
            }
        }
        proof {
            assert(all.subrange(0, all.len() as int) =~= all);
        }
    }

    fn drop_all(&mut self, ids: &Vec<u64>)
        ensures
            final(self)@ == replay(old(self)@, drop_events(ids@)),
    {
        let ghost all = drop_events(ids@);
        let ghost start = self@;
        proof {
            assert(all.subrange(0, 0) =~= Seq::empty());
        }
        let mut i: usize = 0;
        while i < ids.len()
            invariant
                i <= ids@.len(),
                all == drop_events(ids@),
                self@ == replay(start, all.subrange(0, i as int)),
            decreases ids.len() - i,
        {
            let id: u64 = ids[i];
            self.know(id);
            self.assigned = true;
            self.chunks.remove(id);
            unlink_incident(&mut self.relations, id);
            proof {
                let prefix = all.subrange(0, i as int);
                assert(all.subrange(0, i + 1) =~= prefix.push(Event::Drop(id)));
                lemma_replay_push(start, prefix, Event::Drop(id));
            }
            i = i + 1;
        }
        proof {
            assert(all.subrange(0, all.len() as int) =~= all);
        }
    }

    fn link_all(&mut self, relations: Vec<ChunkRelation>)
        ensures
            final(self)@ == replay(old(self)@, link_events(relation_views(relations@))),
    {
        let ghost all = link_events(relation_views(relations@));
        let ghost start = self@;
        let ghost items = relations@;
        proof {
            assert(all.subrange(0, 0) =~= Seq::empty());
        }
        let mut done: Ghost<int> = Ghost(0);
        for rel in it: relations
            invariant
                it.seq() == items,
                done@ == it.index(),
                0 <= done@ <= items.len(),
                all == link_events(relation_views(items)),
                self@ == replay(start, all.subrange(0, done@)),
        {
            let rid = rel.relation_id.clone();
            self.relations.insert(rid, rel);
            proof {
                let prefix = all.subrange(0, done@);
                assert(all.subrange(0, done@ + 1) =~= prefix.push(Event::Link(items[done@]@)));
                lemma_replay_push(start, prefix, Event::Link(items[done@]@));
                done@ = done@ + 1;
            }
        }
        proof {
            assert(all.subrange(0, all.len() as int) =~= all);
        }
    }

    fn unlink_all(&mut self, ids: &Vec<String>)
        ensures
            final(self)@ == replay(old(self)@, unlink_events(text_views(ids@))),
    {
        let ghost all = unlink_events(text_views(ids@));
        let ghost start = self@;
        proof {
            assert(all.subrange(0, 0) =~= Seq::empty());
        }
        let mut i: usize = 0;
        while i < ids.len()
            invariant
                i <= ids@.len(),
                all == unlink_events(text_views(ids@)),
                self@ == replay(start, all.subrange(0, i as int)),
            decreases ids.len() - i,
        {
            self.relations.remove(ids[i].as_str());
            proof {
                let prefix = all.subrange(0, i as int);
                assert(all.subrange(0, i + 1) =~= prefix.push(Event::Unlink(ids@[i as int]@)));
                lemma_replay_push(start, prefix, Event::Unlink(ids@[i as int]@));
            }
            i = i + 1;
        }
        proof {
            assert(all.subrange(0, all.len() as int) =~= all);
        }
    }

    /// Puts a segment on top. Its deletes apply to what is already there, never
    /// to what it holds itself.
    pub fn add_segment(&mut self, seg: Segment)
        ensures
            final(self)@ == apply_segment(old(self)@, seg),
    {
        let ghost s0 = knowing(self@, seg.max_id);
        let ghost d = drop_events(seg.tombstones@);
        let ghost u = unlink_events(text_views(seg.relation_tombstones@));
        let ghost p = put_events(chunk_views(seg.chunks@));
        let ghost l = link_events(relation_views(seg.relations@));
        self.know(seg.max_id);
        self.drop_all(&seg.tombstones);
        self.unlink_all(&seg.relation_tombstones);
        self.put_all(seg.chunks);
        self.link_all(seg.relations);
        proof {
            lemma_replay_concat(s0, d, u);
            lemma_replay_concat(s0, d + u, p);
            lemma_replay_concat(s0, d + u + p, l);
        }
    }

    /// Replays a fragment.
    pub fn add_fragment(&mut self, fragment: Fragment)
        ensures
            final(self)@ == replay(old(self)@, fragment_events(fragment)),
    {
        match fragment {
            Fragment::Data(chunks) => self.put_all(chunks),
            Fragment::Tombstone(ids) => self.drop_all(&ids),
            Fragment::RelationUpsert(relations) => self.link_all(relations),
            Fragment::RelationDelete(ids) => self.unlink_all(&ids),
        }
    }
}

/// The live state of a collection: its segments, oldest first, then the
/// fragments that no segment holds yet, in sequence order.
pub fn materialize(segments: Vec<Segment>, log: Vec<Fragment>) -> (r: Materialized)
    ensures
        r@ == materialized(segments@, log@),
        keyed_by_id(r@),
        ids_known(r@),
{
    let mut live = Materialized::new();
    let ghost segs = segments@;
    let ghost frags = log@;
    let mut done: Ghost<int> = Ghost(0);
    proof {
        assert(segs.subrange(0, 0) =~= Seq::empty());
    }
    for seg in it: segments
        invariant
            it.seq() == segs,
            done@ == it.index(),
            0 <= done@ <= segs.len(),
            live@ == apply_segments(segs.subrange(0, done@)),
    {
        live.add_segment(seg);
        proof {
            let longer = segs.subrange(0, done@ + 1);
            assert(longer.drop_last() =~= segs.subrange(0, done@));
            assert(longer.last() == segs[done@]);
            done@ = done@ + 1;
        }
    }
    proof {
        assert(segs.subrange(0, segs.len() as int) =~= segs);
        assert(frags.subrange(0, 0) =~= Seq::empty());
        done@ = 0;
    }
    for fragment in it: log
        invariant
            it.seq() == frags,
            done@ == it.index(),
            0 <= done@ <= frags.len(),
            live@ == replay(apply_segments(segs), log_events(frags.subrange(0, done@))),
    {
        live.add_fragment(fragment);
        proof {
            let longer = frags.subrange(0, done@ + 1);
            assert(longer.drop_last() =~= frags.subrange(0, done@));
            assert(longer.last() == frags[done@]);
            lemma_replay_concat(
                apply_segments(segs),
                log_events(frags.subrange(0, done@)),
                fragment_events(frags[done@]),
            );
            done@ = done@ + 1;
        }
    }
    proof {
        assert(frags.subrange(0, frags.len() as int) =~= frags);
        lemma_segments_keep_keys(segs);
        lemma_replay_keeps_keys(apply_segments(segs), log_events(frags));
    }
    live
}

proof fn lemma_segments_keep_keys(segs: Seq<Segment>)
    ensures
        keyed_by_id(apply_segments(segs)),
        ids_known(apply_segments(segs)),
    decreases segs.len(),
{
    if segs.len() > 0 {
        lemma_segments_keep_keys(segs.drop_last());
        let s = knowing(apply_segments(segs.drop_last()), segs.last().max_id);
        lemma_replay_keeps_keys(s, segment_events(segs.last()));
    }
}

// ── Folding the log into a segment ──────────────────────────────────────

/// The chunks whose latest step is a delete.
pub open spec fn dead_chunks(events: Seq<Event>) -> Set<u64>
    decreases events.len(),
{
    if events.len() == 0 {
        Set::empty()
    } else {
        let before = dead_chunks(events.drop_last());
        match events.last() {
            Event::Put(c) => before.remove(c.id),
            Event::Drop(id) => before.insert(id),
            _ => before,
        }
    }
}

/// The edges whose latest step, their own creation or deletion, is a deletion.
pub open spec fn dead_relations(events: Seq<Event>) -> Set<Seq<char>>
    decreases events.len(),
{
    if events.len() == 0 {
        Set::empty()
    } else {
        let before = dead_relations(events.drop_last());
        match events.last() {
            Event::Link(r) => before.remove(r.relation_id),
            Event::Unlink(rid) => before.insert(rid),
            _ => before,
        }
    }
}

/// Chunks with their ids.
pub open spec fn chunk_pairs(s: Seq<ChunkView>) -> Seq<(u64, ChunkView)> {
    Seq::new(s.len(), |i: int| (s[i].id, s[i]))
}

/// Edges with their ids.
pub open spec fn relation_pairs(s: Seq<RelationView>) -> Seq<(Seq<char>, RelationView)> {
    Seq::new(s.len(), |i: int| (s[i].relation_id, s[i]))
}

/// The ids increase.
pub open spec fn increasing(s: Seq<u64>) -> bool {
    forall|i: int, j: int| 0 <= i < j < s.len() ==> #[trigger] s[i] < #[trigger] s[j]
}

/// The texts stand in dictionary order, none twice.
pub open spec fn alphabetical(s: Seq<Seq<char>>) -> bool {
    forall|i: int, j: int| 0 <= i < j < s.len() ==> text_lt(#[trigger] s[i], #[trigger] s[j])
}

/// The segment tells that a chunk id was ever assigned.
pub open spec fn tells_assigned(seg: Segment) -> bool {
    seg.max_id > 0 || seg.chunks@.len() > 0 || seg.tombstones@.len() > 0
}

/// The segment lists exactly what is live, each chunk and each edge once, in
/// order of the ids, and tells how far ids were assigned.
pub open spec fn lists_live(seg: Segment, live: LiveView) -> bool {
    &&& in_id_order(chunk_pairs(chunk_views(seg.chunks@)))
    &&& pairs_map(chunk_pairs(chunk_views(seg.chunks@))) == live.chunks
    &&& distinct_keys(relation_pairs(relation_views(seg.relations@)))
    &&& pairs_map(relation_pairs(relation_views(seg.relations@))) == live.relations
    &&& seg.max_id == live.max_id
    &&& tells_assigned(seg) == live.assigned
}

/// The segment carries exactly these deletes, each once, in order.
pub open spec fn lists_dead(seg: Segment, chunks: Set<u64>, relations: Set<Seq<char>>) -> bool {
    &&& increasing(seg.tombstones@)
    &&& seg.tombstones@.to_set() == chunks
    &&& alphabetical(text_views(seg.relation_tombstones@))
    &&& text_views(seg.relation_tombstones@).to_set() == relations
}

/// Every chunk and every edge stands under its own id.
pub open spec fn keyed_by_id(s: LiveView) -> bool {
    &&& forall|k: u64| #[trigger] s.chunks.contains_key(k) ==> s.chunks[k].id == k
    &&& forall|k: Seq<char>| #[trigger]
        s.relations.contains_key(k) ==> s.relations[k].relation_id == k
}

/// Every live chunk's id is known, and a high-water mark above 0 is an id.
pub open spec fn ids_known(s: LiveView) -> bool {
    &&& forall|k: u64| #[trigger] s.chunks.contains_key(k) ==> k <= s.max_id && s.assigned
    &&& s.max_id > 0 ==> s.assigned
}

/// Replay keeps every chunk and every edge under its own id, and no live id
/// above the highest known one.
pub proof fn lemma_replay_keeps_keys(s: LiveView, events: Seq<Event>)
    requires
        keyed_by_id(s),
        ids_known(s),
    ensures
        keyed_by_id(replay(s, events)),
        ids_known(replay(s, events)),
    decreases events.len(),
{
    if events.len() > 0 {
        lemma_replay_keeps_keys(s, events.drop_last());
    }
}

/// The chunks of a live state as a list, in order of the ids.
fn list_chunks(chunks: IdMap<DocumentChunk>) -> (r: Vec<DocumentChunk>)
    requires
        forall|k: u64| #[trigger] chunks@.contains_key(k) ==> chunks@[k].id == k,
    ensures
        in_id_order(chunk_pairs(chunk_views(r@))),
        pairs_map(chunk_pairs(chunk_views(r@))) == chunks@,
{
    let ghost all = chunks.pairs();
    let entries = chunks.into_entries();
    let ghost items = entries@;
    let mut out: Vec<DocumentChunk> = Vec::new();
    let mut done: Ghost<int> = Ghost(0);
    for e in it: entries
        invariant
            it.seq() == items,
            done@ == it.index(),
            0 <= done@ <= items.len(),
            items.len() == all.len(),
            forall|i: int| 0 <= i < items.len() ==> ((#[trigger] items[i]).0, items[i].1@) == all[i],
            out@.len() == done@,
            forall|i: int| 0 <= i < done@ ==> (#[trigger] out@[i])@ == all[i].1,
    {
        out.push(e.1);
        proof {
            done@ = done@ + 1;
        }
    }
    proof {
        assert(chunk_pairs(chunk_views(out@)) =~= all) by {
            assert forall|i: int| 0 <= i < all.len() implies #[trigger] chunk_pairs(
                chunk_views(out@),
            )[i] == all[i] by {
                lemma_pairs_at(all, i);
                assert(chunks@.contains_key(all[i].0));
            }
        }
    }
    out
}

/// The edges of a live state as a list, in dictionary order of the ids.
fn list_relations(relations: StringMap<ChunkRelation>) -> (r: Vec<ChunkRelation>)
    requires
        forall|k: Seq<char>| #[trigger]
            relations@.contains_key(k) ==> relations@[k].relation_id == k,
    ensures
        distinct_keys(relation_pairs(relation_views(r@))),
        pairs_map(relation_pairs(relation_views(r@))) == relations@,
{
    let ghost all = relations.pairs();
    let entries = relations.into_entries();
    let ghost items = entries@;
    let mut out: Vec<ChunkRelation> = Vec::new();
    let mut done: Ghost<int> = Ghost(0);
    for e in it: entries
        invariant
            it.seq() == items,
            done@ == it.index(),
            0 <= done@ <= items.len(),
            items.len() == all.len(),
            forall|i: int|
                0 <= i < items.len() ==> ((#[trigger] items[i]).0@, items[i].1@) == all[i],
            out@.len() == done@,
            forall|i: int| 0 <= i < done@ ==> (#[trigger] out@[i])@ == all[i].1,
    {
        out.push(e.1);
        proof {
            done@ = done@ + 1;
        }
    }
    proof {
        assert(relation_pairs(relation_views(out@)) =~= all) by {
            assert forall|i: int| 0 <= i < all.len() implies #[trigger] relation_pairs(
                relation_views(out@),
            )[i] == all[i] by {
                lemma_pairs_at(all, i);
                assert(relations@.contains_key(all[i].0));
            }
        }
    }
    out
}

/// The ids of a set, in increasing order.
fn list_ids(ids: &IdMap<()>) -> (r: Vec<u64>)
    ensures
        increasing(r@),
        r@.to_set() == ids@.dom(),
{
    let n: usize = ids.len();
    let mut out: Vec<u64> = Vec::new();
    let mut i: usize = 0;
    while i < n
        invariant
            n == ids.pairs().len(),
            i <= n,
            out@.len() == i,
            forall|k: int| 0 <= k < i ==> #[trigger] out@[k] == ids.pairs()[k].0,
        decreases n - i,
    {
        out.push(ids.key_at(i));
        i = i + 1;
    }
    proof {
        assert(out@ =~= crate::assoc::pair_keys(ids.pairs()));
        crate::assoc::lemma_pairs_len(ids.pairs());
    }
    out
}

/// The texts of a set, in dictionary order.
fn list_texts(ids: StringMap<()>) -> (r: Vec<String>)
    ensures
        alphabetical(text_views(r@)),
        text_views(r@).to_set() == ids@.dom(),
{
    let n: usize = ids.len();
    let ghost all = ids.pairs();
    let mut out: Vec<String> = Vec::new();
    let mut i: usize = 0;
    while i < n
        invariant
            n == ids.pairs().len(),
            i <= n,
            out@.len() == i,
            forall|k: int| 0 <= k < i ==> (#[trigger] out@[k])@ == ids.pairs()[k].0,
        decreases n - i,
    {
        out.push(ids.key_at(i).clone());
        i = i + 1;
    }
    proof {
        assert(text_views(out@) =~= crate::assoc::pair_keys(ids.pairs()));
        crate::assoc::lemma_pairs_len(ids.pairs());
    }
    out
}

/// The outcome of a stretch of the log.
struct Tail {
    live: Materialized,
    dead: IdMap<()>,
    dead_relations: StringMap<()>,
}

impl Tail {
    spec fn of(&self, events: Seq<Event>) -> bool {
        &&& self.live@ == replay(nothing_live(), events)
        &&& self.dead@.dom() == dead_chunks(events)
        &&& self.dead_relations@.dom() == dead_relations(events)
    }

    fn note_puts(&mut self, chunks: &Vec<DocumentChunk>, Ghost(before): Ghost<Seq<Event>>)
        requires
            old(self).dead@.dom() == dead_chunks(before),
            old(self).dead_relations@.dom() == dead_relations(before),
        ensures
            final(self).live == old(self).live,
            final(self).dead@.dom() == dead_chunks(before + put_events(chunk_views(chunks@))),
            final(self).dead_relations@.dom() == dead_relations(
                before + put_events(chunk_views(chunks@)),
            ),
    {
        let ghost all = put_events(chunk_views(chunks@));
        let mut i: usize = 0;
        proof {
            assert(before + all.subrange(0, 0) =~= before);
        }
        while i < chunks.len()
            invariant
                i <= chunks@.len(),
                all == put_events(chunk_views(chunks@)),
                self.live == old(self).live,
                self.dead@.dom() == dead_chunks(before + all.subrange(0, i as int)),
                self.dead_relations@.dom() == dead_relations(before + all.subrange(0, i as int)),
            decreases chunks.len() - i,
        {
            self.dead.remove(chunks[i].id);
            proof {
                let prefix = before + all.subrange(0, i as int);
                let next = before + all.subrange(0, i + 1);
                assert(next.drop_last() =~= prefix);
                assert(next.last() == Event::Put(chunks@[i as int]@));
            }
            i = i + 1;
        }
        proof {
            assert(all.subrange(0, all.len() as int) =~= all);
        }
    }

    fn note_drops(&mut self, ids: &Vec<u64>, Ghost(before): Ghost<Seq<Event>>)
        requires
            old(self).dead@.dom() == dead_chunks(before),
            old(self).dead_relations@.dom() == dead_relations(before),
        ensures
            final(self).live == old(self).live,
            final(self).dead@.dom() == dead_chunks(before + drop_events(ids@)),
            final(self).dead_relations@.dom() == dead_relations(before + drop_events(ids@)),
    {
        let ghost all = drop_events(ids@);
        let mut i: usize = 0;
        proof {
            assert(before + all.subrange(0, 0) =~= before);
        }
        while i < ids.len()
            invariant
                i <= ids@.len(),
                all == drop_events(ids@),
                self.live == old(self).live,
                self.dead@.dom() == dead_chunks(before + all.subrange(0, i as int)),
                self.dead_relations@.dom() == dead_relations(before + all.subrange(0, i as int)),
            decreases ids.len() - i,
        {
            self.dead.insert(ids[i], ());
            proof {
                let prefix = before + all.subrange(0, i as int);
                let next = before + all.subrange(0, i + 1);
                assert(next.drop_last() =~= prefix);
                assert(next.last() == Event::Drop(ids@[i as int]));
            }
            i = i + 1;
        }
        proof {
            assert(all.subrange(0, all.len() as int) =~= all);
        }
    }

    fn note_links(&mut self, relations: &Vec<ChunkRelation>, Ghost(before): Ghost<Seq<Event>>)
        requires
            old(self).dead@.dom() == dead_chunks(before),
            old(self).dead_relations@.dom() == dead_relations(before),
        ensures
            final(self).live == old(self).live,
            final(self).dead@.dom() == dead_chunks(before + link_events(relation_views(relations@))),
            final(self).dead_relations@.dom() == dead_relations(
                before + link_events(relation_views(relations@)),
            ),
    {
        let ghost all = link_events(relation_views(relations@));
        let mut i: usize = 0;
        proof {
            assert(before + all.subrange(0, 0) =~= before);
        }
        while i < relations.len()
            invariant
                i <= relations@.len(),
                all == link_events(relation_views(relations@)),
                self.live == old(self).live,
                self.dead@.dom() == dead_chunks(before + all.subrange(0, i as int)),
                self.dead_relations@.dom() == dead_relations(before + all.subrange(0, i as int)),
            decreases relations.len() - i,
        {
            self.dead_relations.remove(relations[i].relation_id.as_str());
            proof {
                let prefix = before + all.subrange(0, i as int);
                let next = before + all.subrange(0, i + 1);
                assert(next.drop_last() =~= prefix);
                assert(next.last() == Event::Link(relations@[i as int]@));
            }
            i = i + 1;
        }
        proof {
            assert(all.subrange(0, all.len() as int) =~= all);
        }
    }

    fn note_unlinks(&mut self, ids: &Vec<String>, Ghost(before): Ghost<Seq<Event>>)
        requires
            old(self).dead@.dom() == dead_chunks(before),
            old(self).dead_relations@.dom() == dead_relations(before),
        ensures
            final(self).live == old(self).live,
            final(self).dead@.dom() == dead_chunks(before + unlink_events(text_views(ids@))),
            final(self).dead_relations@.dom() == dead_relations(
                before + unlink_events(text_views(ids@)),
            ),
    {
        let ghost all = unlink_events(text_views(ids@));
        let mut i: usize = 0;
        proof {
            assert(before + all.subrange(0, 0) =~= before);
        }
        while i < ids.len()
            invariant
                i <= ids@.len(),
                all == unlink_events(text_views(ids@)),
                self.live == old(self).live,
                self.dead@.dom() == dead_chunks(before + all.subrange(0, i as int)),
                self.dead_relations@.dom() == dead_relations(before + all.subrange(0, i as int)),
            decreases ids.len() - i,
        {
            self.dead_relations.insert(ids[i].clone(), ());
            proof {
                let prefix = before + all.subrange(0, i as int);
                let next = before + all.subrange(0, i + 1);
                assert(next.drop_last() =~= prefix);
                assert(next.last() == Event::Unlink(ids@[i as int]@));
            }
            i = i + 1;
        }
        proof {
            assert(all.subrange(0, all.len() as int) =~= all);
        }
    }

    fn add(&mut self, fragment: Fragment, Ghost(before): Ghost<Seq<Event>>)
        requires
            old(self).of(before),
        ensures
            final(self).of(before + fragment_events(fragment)),
    {
        match &fragment {
            Fragment::Data(chunks) => self.note_puts(chunks, Ghost(before)),
            Fragment::Tombstone(ids) => self.note_drops(ids, Ghost(before)),
            Fragment::RelationUpsert(relations) => self.note_links(relations, Ghost(before)),
            Fragment::RelationDelete(ids) => self.note_unlinks(ids, Ghost(before)),
        }
        proof {
            lemma_replay_concat(nothing_live(), before, fragment_events(fragment));
        }
        self.live.add_fragment(fragment);
    }
}

/// A log that mentions an id leaves a chunk or a delete.
proof fn lemma_mentions_leave_a_mark(events: Seq<Event>)
    ensures
        replay(nothing_live(), events).assigned <==> (exists|id: u64| #[trigger]
            replay(nothing_live(), events).chunks.contains_key(id)) || (exists|id: u64| #[trigger]
            dead_chunks(events).contains(id)),
    decreases events.len(),
{
    if events.len() > 0 {
        let init = events.drop_last();
        lemma_mentions_leave_a_mark(init);
        match events.last() {
            Event::Put(c) => {
                assert(replay(nothing_live(), events).chunks.contains_key(c.id));
            },
            Event::Drop(id) => {
                assert(dead_chunks(events).contains(id));
            },
            _ => {
                let before = replay(nothing_live(), init).chunks;
                let after = replay(nothing_live(), events).chunks;
                assert(after == before);
                if exists|id: u64| #[trigger] before.contains_key(id) {
                    let id = choose|id: u64| #[trigger] before.contains_key(id);
                    assert(after.contains_key(id));
                }
                if exists|id: u64| #[trigger] dead_chunks(init).contains(id) {
                    let id = choose|id: u64| #[trigger] dead_chunks(init).contains(id);
                    assert(dead_chunks(events).contains(id));
                }
                if exists|id: u64| #[trigger] after.contains_key(id) {
                    let id = choose|id: u64| #[trigger] after.contains_key(id);
                    assert(before.contains_key(id));
                }
                if exists|id: u64| #[trigger] dead_chunks(events).contains(id) {
                    let id = choose|id: u64| #[trigger] dead_chunks(events).contains(id);
                    assert(dead_chunks(init).contains(id));
                }
            },
        }
    }
}

proof fn lemma_fold_tells_assigned(seg: Segment, events: Seq<Event>)
    requires
        pairs_map(chunk_pairs(chunk_views(seg.chunks@))) == replay(nothing_live(), events).chunks,
        seg.tombstones@.to_set() == dead_chunks(events),
        seg.max_id == replay(nothing_live(), events).max_id,
        ids_known(replay(nothing_live(), events)),
    ensures
        tells_assigned(seg) == replay(nothing_live(), events).assigned,
{
    lemma_mentions_leave_a_mark(events);
    let live = replay(nothing_live(), events);
    let pairs = chunk_pairs(chunk_views(seg.chunks@));
    if exists|id: u64| #[trigger] live.chunks.contains_key(id) {
        let id = choose|id: u64| #[trigger] live.chunks.contains_key(id);
        assert(has_key(pairs, id));
    }
    if exists|id: u64| #[trigger] dead_chunks(events).contains(id) {
        let id = choose|id: u64| #[trigger] dead_chunks(events).contains(id);
        assert(seg.tombstones@.to_set().contains(id));
    }
    if seg.chunks@.len() > 0 {
        assert(has_key(pairs, pairs[0].0));
        assert(live.chunks.contains_key(pairs[0].0));
    }
    if seg.tombstones@.len() > 0 {
        assert(seg.tombstones@.to_set().contains(seg.tombstones@[0]));
    }
}

/// Folds a stretch of the log into one segment. Deletes are carried along, so
/// that they still apply to older segments; a chunk or an edge that came back
/// after its delete carries none.
pub fn fold_tail(log: Vec<Fragment>) -> (r: Segment)
    ensures
        r.version == 2,
        lists_live(r, replay(nothing_live(), log_events(log@))),
        lists_dead(r, dead_chunks(log_events(log@)), dead_relations(log_events(log@))),
{
    let mut tail = Tail {
        live: Materialized::new(),
        dead: IdMap::new(),
        dead_relations: StringMap::new(),
    };
    let ghost frags = log@;
    let mut done: Ghost<int> = Ghost(0);
    proof {
        assert(frags.subrange(0, 0) =~= Seq::empty());
        assert(tail.dead@.dom() =~= Set::empty());
        assert(tail.dead_relations@.dom() =~= Set::empty());
    }
    for fragment in it: log
        invariant
            it.seq() == frags,
            done@ == it.index(),
            0 <= done@ <= frags.len(),
            tail.of(log_events(frags.subrange(0, done@))),
    {
        tail.add(fragment, Ghost(log_events(frags.subrange(0, done@))));
        proof {
            let longer = frags.subrange(0, done@ + 1);
            assert(longer.drop_last() =~= frags.subrange(0, done@));
            assert(longer.last() == frags[done@]);
            done@ = done@ + 1;
        }
    }
    proof {
        assert(frags.subrange(0, frags.len() as int) =~= frags);
        lemma_replay_keeps_keys(nothing_live(), log_events(frags));
    }
    let tombstones = list_ids(&tail.dead);
    let seg = Segment {
        version: 2,
        max_id: tail.live.max_id,
        chunks: list_chunks(tail.live.chunks),
        relations: list_relations(tail.live.relations),
        tombstones,
        relation_tombstones: list_texts(tail.dead_relations),
    };
    proof {
        lemma_fold_tells_assigned(seg, log_events(frags));
    }
    seg
}

/// The deletes in a segment that stands for a whole live state: none, unless 0 is
/// the only id that was ever assigned and its chunk is deleted. Its delete is all
/// that tells then that the id is taken.
pub open spec fn lone_tombstone(live: LiveView) -> Seq<u64> {
    if live.assigned && live.max_id == 0 && !live.chunks.contains_key(0) {
        seq![0u64]
    } else {
        Seq::empty()
    }
}

/// The one segment that stands for a whole live state.
pub fn full_segment(live: Materialized) -> (r: Segment)
    requires
        keyed_by_id(live@),
        ids_known(live@),
    ensures
        r.version == 2,
        lists_live(r, live@),
        r.tombstones@ == lone_tombstone(live@),
        r.relation_tombstones@ == Seq::<String>::empty(),
{
    let ghost state = live@;
    let mut tombstones: Vec<u64> = Vec::new();
    if live.assigned && live.max_id == 0 && !live.chunks.contains_key(0) {
        tombstones.push(0);
    }
    proof {
        assert(tombstones@ =~= lone_tombstone(state));
    }
    let seg = Segment {
        version: 2,
        max_id: live.max_id,
        chunks: list_chunks(live.chunks),
        relations: list_relations(live.relations),
        tombstones,
        relation_tombstones: Vec::new(),
    };
    proof {
        let pairs = chunk_pairs(chunk_views(seg.chunks@));
        if state.chunks.contains_key(0) {
            assert(has_key(pairs, 0u64));
        }
        if seg.chunks@.len() > 0 {
            assert(has_key(pairs, pairs[0].0));
            assert(state.chunks.contains_key(pairs[0].0));
        }
    }
    seg
}

// ── Laws ────────────────────────────────────────────────────────────────

/// A segment's deletes are told in order, each once: a chunk or an edge is among them exactly
/// where it is dead.
pub proof fn law_listed_deletes(
    seg: Segment,
    chunks: Set<u64>,
    relations: Set<Seq<char>>,
    id: u64,
    k: Seq<char>,
    i: int,
    j: int,
)
    requires
        lists_dead(seg, chunks, relations),
    ensures
        seg.tombstones@.contains(id) <==> chunks.contains(id),
        0 <= i < j < seg.tombstones@.len() ==> seg.tombstones@[i] < seg.tombstones@[j],
        text_views(seg.relation_tombstones@).contains(k) <==> relations.contains(k),
        0 <= i < j < seg.relation_tombstones@.len() ==> text_lt(
            seg.relation_tombstones@[i]@,
            seg.relation_tombstones@[j]@,
        ),
{
    assert(seg.tombstones@.to_set().contains(id) <==> seg.tombstones@.contains(id));
    let names = text_views(seg.relation_tombstones@);
    assert(names.to_set().contains(k) <==> names.contains(k));
    if 0 <= i < j < names.len() {
        assert(text_lt(names[i], names[j]));
    }
}

/// A full segment holds each live chunk and each live edge, and nothing that is not live.
pub proof fn law_full_segment_holds_what_is_live(seg: Segment, live: LiveView, i: int, e: int)
    requires
        lists_live(seg, live),
    ensures
        0 <= i < seg.chunks@.len() ==> live.chunks.contains_key(seg.chunks@[i].id)
            && live.chunks[seg.chunks@[i].id] == seg.chunks@[i]@,
        0 <= e < seg.relations@.len() ==> live.relations.contains_key(
            seg.relations@[e].relation_id@,
        ) && live.relations[seg.relations@[e].relation_id@] == seg.relations@[e]@,
        seg.max_id == live.max_id,
        forall|id: u64| #[trigger]
            live.chunks.contains_key(id) ==> exists|k: int|
                0 <= k < seg.chunks@.len() && (#[trigger] seg.chunks@[k]).id == id,
{
    let c = chunk_pairs(chunk_views(seg.chunks@));
    let r = relation_pairs(relation_views(seg.relations@));
    if 0 <= i < seg.chunks@.len() {
        assert(c[i] == (seg.chunks@[i].id, seg.chunks@[i]@));
        lemma_pairs_at(c, i);
    }
    if 0 <= e < seg.relations@.len() {
        assert(r[e] == (seg.relations@[e].relation_id@, seg.relations@[e]@));
        lemma_pairs_at(r, e);
    }
    assert forall|id: u64| #[trigger] live.chunks.contains_key(id) implies exists|k: int|
        0 <= k < seg.chunks@.len() && (#[trigger] seg.chunks@[k]).id == id by {
        assert(has_key(c, id));
        let k = choose|k: int| 0 <= k < c.len() && (#[trigger] c[k]).0 == id;
        assert(seg.chunks@[k].id == id);
    }
}

/// Where the only id ever assigned is 0 and its chunk is gone, a full segment remembers the id
/// as deleted; otherwise it has no deletes.
pub proof fn law_lone_tombstone(live: LiveView)
    ensures
        live.assigned && live.max_id == 0 && !live.chunks.contains_key(0) ==> lone_tombstone(live)
            == seq![0u64],
        !live.assigned || live.max_id > 0 || live.chunks.contains_key(0) ==> lone_tombstone(
            live,
        ).len() == 0,
{
}

} // verus!
