//! A collection as a node holds it: its metadata, the log entries applied, the
//! live and the deleted ids, and the relationships; and what ingest, delete,
//! replay, load and rebuild do to them.
use crate::assoc::{lemma_filter_contains, lemma_filter_push};
use crate::duplicate::{text_view, text_views};
use crate::ids::{
    assign_from_counter, counter_after, highest_id, lemma_raised, next_id_on_load, raise_counter,
    IdPool,
};
use crate::models::{Collection, CollectionView, DocumentChunk};
use crate::relationships::{
    former_group, groups_exact, no_relationships, parent_in, with_relationship, RelationshipStore,
    RelationshipView, RelationshipsView,
};
use crate::seq_tracker::SeqTracker;
use crate::string_map::StringMap;
use std::collections::HashSet;
use vstd::prelude::*;
use vstd::string::*;

verus! {

broadcast use vstd::std_specs::hash::group_hash_axioms;

/// A collection as a node holds it.
#[derive(Debug)]
pub struct LoadedCollection {
    pub metadata: Collection,
    /// By vector space, the batches added to its index since that was saved.
    pub hnsw_unsaved: StringMap<u32>,
    /// Stamp of the last use.
    pub last_used: u64,
    /// The log entries reflected in the local indexes.
    pub applied: SeqTracker,
    /// Leased ids.
    pub id_pool: IdPool,
    pub relationships: RelationshipStore,
    /// Deleted chunks that the indexes still hold.
    pub tombstones: HashSet<u64>,
    /// One past the highest id assigned.
    pub next_id: u64,
    /// The chunks that queries may return.
    pub live: HashSet<u64>,
}

impl LoadedCollection {
    /// The tracker is sound, and no chunk is both live and deleted.
    pub open spec fn wf(&self) -> bool {
        &&& self.applied.wf()
        &&& self.live@.disjoint(self.tombstones@)
    }

    /// The metadata counts exactly the live chunks.
    pub open spec fn counted(&self) -> bool {
        &&& self.live@.finite()
        &&& self.metadata.chunk_count == self.live@.len()
    }
}

/// The ids of a list of chunks.
pub open spec fn ids_of(chunks: Seq<DocumentChunk>) -> Seq<u64> {
    Seq::new(chunks.len(), |i: int| chunks[i].id)
}

/// A set with the elements of a list.
pub open spec fn with_all(s: Set<u64>, ids: Seq<u64>) -> Set<u64> {
    s.union(ids.to_set())
}

proof fn lemma_with_all_push(s: Set<u64>, ids: Seq<u64>, id: u64)
    ensures
        with_all(s, ids.push(id)) == with_all(s, ids).insert(id),
{
    assert forall|x: u64|
        with_all(s, ids.push(id)).contains(x) == with_all(s, ids).insert(id).contains(x) by {
        if ids.contains(x) {
            let k = choose|k: int| 0 <= k < ids.len() && ids[k] == x;
            assert(ids.push(id)[k] == x);
        }
        if x == id {
            assert(ids.push(id)[ids.len() as int] == x);
        }
        if ids.push(id).contains(x) {
            let k = choose|k: int| 0 <= k < ids.push(id).len() && ids.push(id)[k] == x;
            if k < ids.len() {
                assert(ids[k] == x);
            }
        }
    }
    assert(with_all(s, ids.push(id)) =~= with_all(s, ids).insert(id));
}

/// Adds ids to a set.
fn insert_all(set: &mut HashSet<u64>, ids: &Vec<u64>)
    ensures
        final(set)@ == with_all(old(set)@, ids@),
{
    let ghost start = set@;
    let mut i: usize = 0;
    proof {
        assert(with_all(start, ids@.subrange(0, 0)) =~= start);
    }
    while i < ids.len()
        invariant
            i <= ids@.len(),
            set@ == with_all(start, ids@.subrange(0, i as int)),
        decreases ids.len() - i,
    {
        set.insert(ids[i]);
        proof {
            assert(ids@.subrange(0, i + 1) =~= ids@.subrange(0, i as int).push(ids@[i as int]));
            lemma_with_all_push(start, ids@.subrange(0, i as int), ids@[i as int]);
        }
        i = i + 1;
    }
    proof {
        assert(ids@.subrange(0, ids@.len() as int) =~= ids@);
    }
}

/// The relationships after a list of chunks was added.
pub open spec fn relationships_after(
    s: RelationshipsView,
    rels: Seq<(u64, Option<u64>, Option<String>)>,
) -> RelationshipsView
    decreases rels.len(),
{
    if rels.len() == 0 {
        s
    } else {
        let (id, parent, group) = rels.last();
        with_relationship(
            relationships_after(s, rels.drop_last()),
            id,
            RelationshipView { parent_id: parent, group_id: text_view(group) },
        )
    }
}

/// Where the ids of a batch come from: leased ids, or the collection's counter.
pub open spec fn assigned(
    leased: Option<Seq<u64>>,
    next_id: u64,
    count: nat,
) -> Seq<u64> {
    match leased {
        Some(ids) => ids,
        None => Seq::new(count, |i: int| (next_id + i) as u64),
    }
}

impl LoadedCollection {
    /// A collection with nothing in it.
    pub fn created(metadata: Collection, tick: u64) -> (r: LoadedCollection)
        ensures
            r.metadata == metadata,
            r.last_used == tick,
            r.hnsw_unsaved@ == Map::<Seq<char>, u32>::empty(),
            r.applied.contiguous == 0,
            r.applied.out_of_band@ == Set::<u64>::empty(),
            r.id_pool@ == Seq::<u64>::empty(),
            r.relationships@ == no_relationships(),
            r.tombstones@ == Set::<u64>::empty(),
            r.next_id == 0,
            r.live@ == Set::<u64>::empty(),
            r.wf(),
            metadata.chunk_count == 0 ==> r.counted(),
    {
        LoadedCollection {
            metadata,
            hnsw_unsaved: StringMap::new(),
            last_used: tick,
            applied: SeqTracker::default(),
            id_pool: IdPool::new(),
            relationships: RelationshipStore::new(),
            tombstones: HashSet::new(),
            next_id: 0,
            live: HashSet::new(),
        }
    }

    /// A collection loaded from the local disk: `on_disk` are the ids of the
    /// chunks there, `deleted` those of them that are deleted. Ids go on above
    /// every one ever assigned.
    pub fn from_disk(
        metadata: Collection,
        on_disk: &Vec<u64>,
        deleted: &Vec<u64>,
        relationships: RelationshipStore,
        tick: u64,
    ) -> (r: LoadedCollection)
        requires
            forall|i: int| 0 <= i < on_disk@.len() ==> #[trigger] on_disk@[i] < u64::MAX,
        ensures
            r.metadata == metadata,
            r.relationships == relationships,
            r.last_used == tick,
            r.hnsw_unsaved@ == Map::<Seq<char>, u32>::empty(),
            r.id_pool@ == Seq::<u64>::empty(),
            r.tombstones@ == deleted@.to_set(),
            r.live@ == on_disk@.to_set().difference(deleted@.to_set()),
            r.applied.contiguous == metadata.applied_seq,
            r.applied.out_of_band@ == Set::<u64>::empty(),
            metadata.next_id <= r.next_id,
            metadata.chunk_count <= r.next_id,
            forall|i: int| 0 <= i < on_disk@.len() ==> #[trigger] on_disk@[i] < r.next_id,
            r.next_id == metadata.next_id || r.next_id == metadata.chunk_count || (r.next_id > 0
                && on_disk@.contains((r.next_id - 1) as u64)),
            r.wf(),
    {
        let max_seen = highest_id(on_disk);
        proof {
            if let Some(m) = max_seen {
                let i = choose|i: int| 0 <= i < on_disk@.len() && on_disk@[i] == m;
                assert(on_disk@[i] < u64::MAX);
            }
        }
        let next_id: u64 = next_id_on_load(metadata.next_id, max_seen, metadata.chunk_count);
        let mut tombstones: HashSet<u64> = HashSet::new();
        insert_all(&mut tombstones, deleted);
        proof {
            assert(tombstones@ =~= deleted@.to_set());
        }
        let mut live: HashSet<u64> = HashSet::new();
        let mut i: usize = 0;
        while i < on_disk.len()
            invariant
                i <= on_disk@.len(),
                tombstones@ == deleted@.to_set(),
                live@ == on_disk@.subrange(0, i as int).to_set().difference(deleted@.to_set()),
            decreases on_disk.len() - i,
        {
            let id: u64 = on_disk[i];
            let ghost shorter = on_disk@.subrange(0, i as int);
            if !tombstones.contains(&id) {
                live.insert(id);
            }
            proof {
                lemma_with_all_push(Set::empty(), shorter, id);
                assert(on_disk@.subrange(0, i + 1) =~= shorter.push(id));
                assert(with_all(Set::empty(), shorter) =~= shorter.to_set());
                assert(with_all(Set::empty(), shorter.push(id)) =~= shorter.push(id).to_set());
                assert(live@ =~= on_disk@.subrange(0, i + 1).to_set().difference(
                    deleted@.to_set(),
                ));
            }
            i = i + 1;
        }
        proof {
            assert(on_disk@.subrange(0, on_disk@.len() as int) =~= on_disk@);
        }
        let applied = SeqTracker::starting_at(metadata.applied_seq);
        LoadedCollection {
            metadata,
            hnsw_unsaved: StringMap::new(),
            last_used: tick,
            applied,
            id_pool: IdPool::new(),
            relationships,
            tombstones,
            next_id,
            live,
        }
    }

    /// Assigns the ids of a batch. Leased ids raise the counter above them; the
    /// counter itself is used where there is no lease.
    pub fn assign_ids(&mut self, leased: Option<Vec<u64>>, count: usize) -> (r: Vec<u64>)
        requires
            leased matches Some(ids) ==> forall|i: int|
                0 <= i < ids@.len() ==> #[trigger] ids@[i] < u64::MAX,
            leased is None ==> old(self).next_id + count <= u64::MAX,
        ensures
            r@ == assigned(
                match leased {
                    Some(ids) => Some(ids@),
                    None => None,
                },
                old(self).next_id,
                count as nat,
            ),
            forall|i: int| 0 <= i < r@.len() ==> #[trigger] r@[i] < final(self).next_id,
            old(self).next_id <= final(self).next_id,
            final(self).next_id == counter_after(
                match leased {
                    Some(ids) => Some(ids@),
                    None => None,
                },
                old(self).next_id,
                count as nat,
            ),
            *final(self) == (LoadedCollection { next_id: final(self).next_id, ..*old(self) }),
    {
        match leased {
            Some(ids) => {
                proof {
                    lemma_raised(self.next_id as int, ids@);
                }
                let mut next: u64 = self.next_id;
                raise_counter(&mut next, &ids);
                self.next_id = next;
                ids
            },
            None => {
                let mut next: u64 = self.next_id;
                let ids = assign_from_counter(&mut next, count);
                self.next_id = next;
                ids
            },
        }
    }

    /// Records the parents and groups of a batch.
    pub fn add_relationships(&mut self, rels: Vec<(u64, Option<u64>, Option<String>)>)
        ensures
            final(self).relationships@ == relationships_after(old(self).relationships@, rels@),
            groups_exact(old(self).relationships@) ==> groups_exact(
                final(self).relationships@,
            ),
            *final(self) == (LoadedCollection {
                relationships: final(self).relationships,
                ..*old(self)
            }),
    {
        let ghost start = *self;
        let ghost all = rels@;
        let mut done: Ghost<int> = Ghost(0);
        proof {
            assert(all.subrange(0, 0) =~= Seq::empty());
        }
        for rel in it: rels
            invariant
                it.seq() == all,
                done@ == it.index(),
                0 <= done@ <= all.len(),
                *self == (LoadedCollection { relationships: self.relationships, ..start }),
                groups_exact(start.relationships@) ==> groups_exact(self.relationships@),
                self.relationships@ == relationships_after(
                    start.relationships@,
                    all.subrange(0, done@),
                ),
        {
            let (id, parent, group) = rel;
            self.relationships.add(id, parent, group);
            proof {
                let longer = all.subrange(0, done@ + 1);
                assert(longer.drop_last() =~= all.subrange(0, done@));
                assert(longer.last() == all[done@]);
                done@ = done@ + 1;
            }
        }
        proof {
            assert(all.subrange(0, all.len() as int) =~= all);
        }
    }

    /// Counts a batch in the metadata, and has the metadata remember the id
    /// counter.
    pub fn count_batch(&mut self, count: usize)
        requires
            old(self).metadata.chunk_count + count <= u64::MAX,
        ensures
            final(self).metadata@ == (CollectionView {
                chunk_count: (old(self).metadata.chunk_count + count) as u64,
                next_id: old(self).next_id,
                ..old(self).metadata@
            }),
            *final(self) == (LoadedCollection { metadata: final(self).metadata, ..*old(self) }),
    {
        self.metadata.chunk_count = self.metadata.chunk_count + count as u64;
        self.metadata.next_id = self.next_id;
    }

    /// Makes the chunks of a batch live.
    pub fn index_chunks(&mut self, chunks: &Vec<DocumentChunk>)
        ensures
            final(self).live@ == with_all(old(self).live@, ids_of(chunks@)),
            *final(self) == (LoadedCollection { live: final(self).live, ..*old(self) }),
    {
        let ghost start = *self;
        let ghost ids = ids_of(chunks@);
        let mut i: usize = 0;
        proof {
            assert(with_all(start.live@, ids.subrange(0, 0)) =~= start.live@);
        }
        while i < chunks.len()
            invariant
                i <= chunks@.len(),
                ids == ids_of(chunks@),
                *self == (LoadedCollection { live: self.live, ..start }),
                self.live@ == with_all(start.live@, ids.subrange(0, i as int)),
            decreases chunks.len() - i,
        {
            self.live.insert(chunks[i].id);
            proof {
                assert(ids.subrange(0, i + 1) =~= ids.subrange(0, i as int).push(ids[i as int]));
                lemma_with_all_push(start.live@, ids.subrange(0, i as int), ids[i as int]);
            }
            i = i + 1;
        }
        proof {
            assert(ids.subrange(0, ids.len() as int) =~= ids);
        }
    }

    /// Records a log entry as applied, and has the metadata remember the
    /// frontier.
    pub fn mark_applied(&mut self, seq: u64)
        requires
            old(self).applied.wf(),
            exists|s: u64| s != seq && !#[trigger] old(self).applied.applied(s),
        ensures
            final(self).applied.wf(),
            forall|s: u64| #[trigger]
                final(self).applied.applied(s) <==> old(self).applied.applied(s) || s == seq,
            final(self).metadata@ == (CollectionView {
                applied_seq: final(self).applied.contiguous,
                ..old(self).metadata@
            }),
            old(self).applied.contiguous <= final(self).applied.contiguous,
            *final(self) == (LoadedCollection {
                applied: final(self).applied,
                metadata: final(self).metadata,
                ..*old(self)
            }),
    {
        self.applied.mark(seq);
        self.metadata.applied_seq = self.applied.contiguous;
    }

    /// Whether a log entry that this node appended was applied by the refresher
    /// meanwhile.
    pub fn already_applied(&self, appended: Option<u64>) -> (r: bool)
        ensures
            r == (appended is Some && self.applied.applied(appended->0)),
    {
        match appended {
            Some(seq) => self.applied.covers(seq),
            None => false,
        }
    }

    /// The ids of a delete request that are live, each once, in the order given.
    pub fn deletable(&self, ids: &Vec<u64>) -> (r: Vec<u64>)
        ensures
            r@.no_duplicates(),
            forall|id: u64| #[trigger]
                r@.contains(id) <==> ids@.contains(id) && self.live@.contains(id),
            first_mentions(ids@, r@),
    {
        let once = dedup_ids(ids);
        let out = self.live_among(&once);
        proof {
            let keep = is_live(self.live@);
            lemma_filter_keeps_order(once@, keep);
            assert forall|id: u64| #[trigger]
                out@.contains(id) <==> ids@.contains(id) && self.live@.contains(id) by {
                lemma_filter_contains(once@, keep, id);
            }
            lemma_first_mentions_filter(ids@, once@, keep);
        }
        out
    }

    /// The ids of a list that are live, in the order given.
    pub fn live_among(&self, ids: &Vec<u64>) -> (r: Vec<u64>)
        ensures
            r@ == ids@.filter(is_live(self.live@)),
    {
        let ghost keep = is_live(self.live@);
        let mut out: Vec<u64> = Vec::new();
        let mut i: usize = 0;
        proof {
            reveal(Seq::filter);
            assert(ids@.subrange(0, 0) =~= Seq::empty());
        }
        while i < ids.len()
            invariant
                i <= ids@.len(),
                keep == is_live(self.live@),
                out@ == ids@.subrange(0, i as int).filter(keep),
            decreases ids.len() - i,
        {
            let id: u64 = ids[i];
            proof {
                let shorter = ids@.subrange(0, i as int);
                assert(ids@.subrange(0, i + 1) =~= shorter.push(id));
                lemma_filter_push(shorter, id, keep);
            }
            if self.live.contains(&id) {
                out.push(id);
            }
            i = i + 1;
        }
        proof {
            assert(ids@.subrange(0, ids@.len() as int) =~= ids@);
        }
        out
    }

    /// The texts of stored chunks that are not deleted, with their ids: what a
    /// rebuild of a vector space embeds.
    pub fn get_all_chunk_data(&self, chunks: Vec<DocumentChunk>) -> (r: (Vec<String>, Vec<u64>))
        ensures
            r.1@ == ids_of(chunks@.filter(is_kept(self.tombstones@))),
            text_views(r.0@) == texts_of(chunks@.filter(is_kept(self.tombstones@))),
    {
        let ghost all = chunks@;
        let ghost keep = is_kept(self.tombstones@);
        let mut texts: Vec<String> = Vec::new();
        let mut ids: Vec<u64> = Vec::new();
        let mut done: Ghost<int> = Ghost(0);
        proof {
            reveal(Seq::filter);
            assert(all.subrange(0, 0) =~= Seq::empty());
            assert(ids@ =~= ids_of(all.subrange(0, 0).filter(keep)));
            assert(text_views(texts@) =~= texts_of(all.subrange(0, 0).filter(keep)));
        }
        for c in it: chunks
            invariant
                it.seq() == all,
                done@ == it.index(),
                0 <= done@ <= all.len(),
                keep == is_kept(self.tombstones@),
                ids@ == ids_of(all.subrange(0, done@).filter(keep)),
                text_views(texts@) == texts_of(all.subrange(0, done@).filter(keep)),
        {
            let ghost shorter = all.subrange(0, done@);
            let ghost this = c;
            let ghost before = text_views(texts@);
            proof {
                assert(all.subrange(0, done@ + 1) =~= shorter.push(c));
                lemma_filter_push(shorter, c, keep);
                done@ = done@ + 1;
            }
            if !self.tombstones.contains(&c.id) {
                ids.push(c.id);
                texts.push(c.text);
                proof {
                    assert(ids@ =~= ids_of(shorter.filter(keep).push(this)));
                    assert(text_views(texts@) =~= before.push(this.text@));
                    assert(text_views(texts@) =~= texts_of(shorter.filter(keep).push(this)));
                }
            }
        }
        proof {
            assert(all.subrange(0, all.len() as int) =~= all);
        }
        (texts, ids)
    }

    /// Records chunks as deleted.
    pub fn mark_deleted(&mut self, ids: &Vec<u64>)
        ensures
            final(self).tombstones@ == with_all(old(self).tombstones@, ids@),
            *final(self) == (LoadedCollection {
                tombstones: final(self).tombstones,
                ..*old(self)
            }),
    {
        insert_all(&mut self.tombstones, ids);
    }

    /// Records chunks as deleted and counts them off.
    pub fn bury(&mut self, ids: &Vec<u64>)
        ensures
            final(self).tombstones@ == with_all(old(self).tombstones@, ids@),
            final(self).metadata@ == (CollectionView {
                chunk_count: if old(self).metadata.chunk_count < ids@.len() {
                    0u64
                } else {
                    (old(self).metadata.chunk_count - ids@.len()) as u64
                },
                ..old(self).metadata@
            }),
            *final(self) == (LoadedCollection {
                tombstones: final(self).tombstones,
                metadata: final(self).metadata,
                ..*old(self)
            }),
    {
        self.mark_deleted(ids);
        let removed: u64 = ids.len() as u64;
        self.metadata.chunk_count = if self.metadata.chunk_count < removed {
            0
        } else {
            self.metadata.chunk_count - removed
        };
    }

    /// Takes chunks out of what queries may return.
    pub fn unindex(&mut self, ids: &Vec<u64>)
        ensures
            final(self).live@ == old(self).live@.difference(ids@.to_set()),
            *final(self) == (LoadedCollection { live: final(self).live, ..*old(self) }),
    {
        let ghost start = *self;
        let mut i: usize = 0;
        proof {
            assert(start.live@.difference(ids@.subrange(0, 0).to_set()) =~= start.live@);
        }
        while i < ids.len()
            invariant
                i <= ids@.len(),
                *self == (LoadedCollection { live: self.live, ..start }),
                self.live@ == start.live@.difference(ids@.subrange(0, i as int).to_set()),
            decreases ids.len() - i,
        {
            let id: u64 = ids[i];
            self.live.remove(&id);
            proof {
                let shorter = ids@.subrange(0, i as int);
                assert(ids@.subrange(0, i + 1) =~= shorter.push(id));
                lemma_with_all_push(Set::empty(), shorter, id);
                assert(with_all(Set::empty(), shorter) =~= shorter.to_set());
                assert(with_all(Set::empty(), shorter.push(id)) =~= shorter.push(id).to_set());
                assert(self.live@ =~= start.live@.difference(shorter.push(id).to_set()));
            }
            i = i + 1;
        }
        proof {
            assert(ids@.subrange(0, ids@.len() as int) =~= ids@);
        }
    }
}

/// The chunk is not deleted.
pub open spec fn is_kept(deleted: Set<u64>) -> spec_fn(DocumentChunk) -> bool {
    |c: DocumentChunk| !deleted.contains(c.id)
}

/// The texts of a list of chunks.
pub open spec fn texts_of(chunks: Seq<DocumentChunk>) -> Seq<Seq<char>> {
    Seq::new(chunks.len(), |i: int| chunks[i].text@)
}

/// The chunk is live.
pub open spec fn is_live(live: Set<u64>) -> spec_fn(u64) -> bool {
    |id: u64| live.contains(id)
}

/// `out` lists elements of `ids` in the order of their first mention.
pub open spec fn first_mentions(ids: Seq<u64>, out: Seq<u64>) -> bool {
    forall|i: int, j: int|
        0 <= i < j < out.len() ==> #[trigger] first_at(ids, out[i]) < #[trigger] first_at(
            ids,
            out[j],
        )
}

/// The position of the first mention of an id.
pub open spec fn first_at(ids: Seq<u64>, id: u64) -> int {
    ids.index_of_first(id)->0
}

/// The ids of a list, each once, in the order of their first mention.
pub fn dedup_ids(ids: &Vec<u64>) -> (r: Vec<u64>)
    ensures
        r@.no_duplicates(),
        forall|id: u64| #[trigger] r@.contains(id) <==> ids@.contains(id),
        first_mentions(ids@, r@),
{
    let mut seen: HashSet<u64> = HashSet::new();
    let mut out: Vec<u64> = Vec::new();
    let mut i: usize = 0;
    proof {
        assert(ids@.subrange(0, 0) =~= Seq::empty());
    }
    while i < ids.len()
        invariant
            i <= ids@.len(),
            out@.no_duplicates(),
            forall|id: u64| #[trigger]
                out@.contains(id) <==> ids@.subrange(0, i as int).contains(id),
            forall|id: u64| #[trigger] seen@.contains(id) <==> out@.contains(id),
            first_mentions(ids@, out@),
            forall|k: int| 0 <= k < out@.len() ==> 0 <= #[trigger] first_at(ids@, out@[k]) < i,
        decreases ids.len() - i,
    {
        let id: u64 = ids[i];
        let ghost before = out@;
        let ghost shorter = ids@.subrange(0, i as int);
        let ghost longer = ids@.subrange(0, i + 1);
        let is_new = seen.insert(id);
        proof {
            assert(longer =~= shorter.push(id));
            assert forall|x: u64| longer.contains(x) == (shorter.contains(x) || x == id) by {
                if shorter.contains(x) {
                    let k = choose|k: int| 0 <= k < shorter.len() && shorter[k] == x;
                    assert(longer[k] == x);
                }
                if x == id {
                    assert(longer[i as int] == x);
                }
            }
        }
        if is_new {
            out.push(id);
            proof {
                assert(!before.contains(id));
                assert(!shorter.contains(id));
                assert(first_at(ids@, id) == i) by {
                    assert(ids@.contains(id)) by {
                        assert(ids@[i as int] == id);
                    }
                    ids@.index_of_first_ensures(id);
                    let f = first_at(ids@, id);
                    if f < i {
                        assert(shorter[f] == id);
                    }
                }
                assert forall|x: u64| out@.contains(x) == (before.contains(x) || x == id) by {
                    if before.contains(x) {
                        let k = choose|k: int| 0 <= k < before.len() && before[k] == x;
                        assert(out@[k] == x);
                    }
                    if x == id {
                        assert(out@[before.len() as int] == x);
                    }
                }
                assert(out@.no_duplicates());
                assert forall|a: int, b: int| 0 <= a < b < out@.len() implies #[trigger] first_at(
                    ids@,
                    out@[a],
                ) < #[trigger] first_at(ids@, out@[b]) by {
                    assert(out@[a] == before[a]);
                    assert(first_at(ids@, before[a]) < i);
                    if b < before.len() {
                        assert(out@[b] == before[b]);
                    }
                }
                assert forall|k: int| 0 <= k < out@.len() implies 0 <= #[trigger] first_at(
                    ids@,
                    out@[k],
                ) < i + 1 by {
                    if k < before.len() {
                        assert(out@[k] == before[k]);
                        assert(first_at(ids@, before[k]) < i);
                    }
                }
            }
        }
        proof {
            assert forall|x: u64| #[trigger] out@.contains(x) <==> longer.contains(x) by {
                assert(before.contains(x) == shorter.contains(x));
                assert(is_new == !before.contains(id));
            }
        }
        i = i + 1;
    }
    proof {
        assert(ids@.subrange(0, ids@.len() as int) =~= ids@);
    }
    out
}

proof fn lemma_filter_keeps_order<A>(s: Seq<A>, p: spec_fn(A) -> bool)
    requires
        s.no_duplicates(),
    ensures
        s.filter(p).no_duplicates(),
    decreases s.len(),
{
    reveal(Seq::filter);
    if s.len() > 0 {
        let init = s.drop_last();
        lemma_filter_keeps_order(init, p);
        lemma_filter_contains(init, p, s.last());
        if init.contains(s.last()) {
            let k = choose|k: int| 0 <= k < init.len() && init[k] == s.last();
            assert(s[k] == s[s.len() - 1]);
        }
    }
}

proof fn lemma_first_mentions_filter(ids: Seq<u64>, once: Seq<u64>, p: spec_fn(u64) -> bool)
    requires
        first_mentions(ids, once),
    ensures
        first_mentions(ids, once.filter(p)),
        forall|k: int|
            0 <= k < once.filter(p).len() ==> exists|m: int|
                0 <= m < once.len() && once[m] == #[trigger] once.filter(p)[k],
        once.len() > 0 ==> forall|k: int|
            0 <= k < once.filter(p).len() ==> first_at(ids, #[trigger] once.filter(p)[k]) <= first_at(
                ids,
                once.last(),
            ),
    decreases once.len(),
{
    reveal(Seq::filter);
    if once.len() > 0 {
        let init = once.drop_last();
        assert forall|i: int, j: int| 0 <= i < j < init.len() implies #[trigger] first_at(
            ids,
            init[i],
        ) < #[trigger] first_at(ids, init[j]) by {
            assert(init[i] == once[i] && init[j] == once[j]);
        }
        lemma_first_mentions_filter(ids, init, p);
        let f = init.filter(p);
        assert forall|k: int| 0 <= k < f.len() implies first_at(ids, #[trigger] f[k]) < first_at(
            ids,
            once.last(),
        ) by {
            let m = choose|m: int| 0 <= m < init.len() && init[m] == f[k];
            assert(once[m] == f[k]);
            assert(first_at(ids, once[m]) < first_at(ids, once[once.len() - 1]));
        }
        let g = once.filter(p);
        assert forall|k: int| 0 <= k < g.len() implies exists|m: int|
            0 <= m < once.len() && once[m] == #[trigger] g[k] by {
            if k < f.len() {
                assert(g[k] == f[k]);
                let m = choose|m: int| 0 <= m < init.len() && init[m] == f[k];
                assert(once[m] == g[k]);
            } else {
                assert(once[once.len() - 1] == g[k]);
            }
        }
        assert forall|i: int, j: int| 0 <= i < j < g.len() implies #[trigger] first_at(ids, g[i])
            < #[trigger] first_at(ids, g[j]) by {
            assert(g[i] == f[i]);
            if j < f.len() {
                assert(g[j] == f[j]);
            }
        }
        assert forall|k: int| 0 <= k < g.len() implies first_at(ids, #[trigger] g[k]) <= first_at(
            ids,
            once.last(),
        ) by {
            if k < f.len() {
                assert(g[k] == f[k]);
            }
        }
    }
}

// ── Laws ────────────────────────────────────────────────────────────────

/// Without leased ids the counter's are assigned, in a row and starting with the next
/// one; leased ids are assigned as they were leased.
pub proof fn law_assigned_ids(ids: Seq<u64>, next_id: u64, count: nat, i: int)
    requires
        next_id + count <= u64::MAX,
        0 <= i < count,
    ensures
        assigned(None, next_id, count).len() == count,
        assigned(None, next_id, count)[i] == next_id + i,
        assigned(Some(ids), next_id, count) == ids,
{
}

/// Adding ids to a set adds exactly these.
pub proof fn law_ids_are_added(s: Set<u64>, ids: Seq<u64>, id: u64)
    ensures
        with_all(s, ids).contains(id) <==> s.contains(id) || ids.contains(id),
{
}

/// Kept are exactly the live ones of a list of ids, and exactly those of a list of chunks
/// that were not deleted; each chunk is listed by its id and its text.
pub proof fn law_kept_and_live(
    ids: Seq<u64>,
    live: Set<u64>,
    id: u64,
    chunks: Seq<DocumentChunk>,
    deleted: Set<u64>,
    c: DocumentChunk,
    i: int,
)
    ensures
        ids.filter(is_live(live)).contains(id) <==> ids.contains(id) && live.contains(id),
        chunks.filter(is_kept(deleted)).contains(c) <==> chunks.contains(c) && !deleted.contains(
            c.id,
        ),
        ids_of(chunks).len() == chunks.len() && texts_of(chunks).len() == chunks.len(),
        0 <= i < chunks.len() ==> ids_of(chunks)[i] == chunks[i].id && texts_of(chunks)[i]
            == chunks[i].text@,
{
    lemma_filter_contains(ids, is_live(live), id);
    lemma_filter_contains(chunks, is_kept(deleted), c);
}

/// Of the relationships added one after the other, the last one given for a chunk is the
/// one found, and a chunk without one keeps its parent.
pub proof fn law_last_relationship_counts(
    s: RelationshipsView,
    rels: Seq<(u64, Option<u64>, Option<String>)>,
    i: int,
    other: u64,
)
    ensures
        0 <= i < rels.len() && (forall|j: int|
            i < j < rels.len() ==> (#[trigger] rels[j]).0 != rels[i].0) ==> parent_in(
            relationships_after(s, rels),
            rels[i].0,
        ) == rels[i].1,
        0 <= i < rels.len() && (forall|j: int|
            i < j < rels.len() ==> (#[trigger] rels[j]).0 != rels[i].0) ==> former_group(
            relationships_after(s, rels),
            rels[i].0,
        ) == text_view(rels[i].2),
        (forall|j: int| 0 <= j < rels.len() ==> (#[trigger] rels[j]).0 != other) ==> parent_in(
            relationships_after(s, rels),
            other,
        ) == parent_in(s, other),
    decreases rels.len(),
{
    if rels.len() > 0 {
        let init = rels.drop_last();
        let n = rels.len() - 1;
        law_last_relationship_counts(s, init, i, other);
        assert(forall|j: int| 0 <= j < init.len() ==> init[j] == rels[j]);
        if 0 <= i < n && (forall|j: int|
            i < j < rels.len() ==> (#[trigger] rels[j]).0 != rels[i].0) {
            assert(rels[n].0 != rels[i].0);
        }
    }
}

/// Ids in the order of their first mention stand as they do in the list they come from.
pub proof fn law_first_mentions_keep_the_order(
    ids: Seq<u64>,
    out: Seq<u64>,
    i: int,
    j: int,
    a: int,
    b: int,
)
    requires
        first_mentions(ids, out),
        0 <= i < j < out.len(),
        0 <= a < ids.len() && ids[a] == out[i] && forall|x: int| 0 <= x < a ==> ids[x] != out[i],
        0 <= b < ids.len() && ids[b] == out[j] && forall|x: int| 0 <= x < b ==> ids[x] != out[j],
    ensures
        a < b,
{
    assert(first_at(ids, out[i]) < first_at(ids, out[j]));
    ids.index_of_first_ensures(out[i]);
    ids.index_of_first_ensures(out[j]);
    assert(ids.contains(out[i]) && ids.contains(out[j]));
    let x = first_at(ids, out[i]);
    let y = first_at(ids, out[j]);
    assert(x == a);
    assert(y == b);
}

/// In a sound copy no chunk is live and deleted at once, and in a counted one the number of
/// chunks is that of the live ones.
pub proof fn law_sound_copies(l: LoadedCollection, id: u64)
    ensures
        l.wf() ==> !(l.live@.contains(id) && l.tombstones@.contains(id)),
        l.wf() ==> l.applied.wf(),
        l.counted() ==> l.live@.finite() && l.metadata.chunk_count == l.live@.len(),
{
}

} // verus!
