//! What the engine reads of a collection's manifest, and the decisions taken
//! on it: refreshing a node's copy, and compacting the store.
use crate::bucket::{spaces_equal, BucketConfig, BucketView};
use crate::duplicate::{duplicate_text, optional_text_eq, text_views, Duplicate};
use crate::errors::{failure, EngineError};
use crate::lsm::{apply_segments, log_events, materialize, Fragment, Segment};
use crate::models::{texts_contain, Collection, CollectionView, Timestamp};
use crate::seq_tracker::SeqTracker;
use crate::storage_error::StorageError;
use crate::text::own;
use vstd::prelude::*;
use vstd::string::*;

verus! {

/// What a log fragment holds.
#[derive(Debug, Clone, Copy, PartialEq, Eq, Structural)]
pub enum FragmentKind {
    Data,
    Tombstone,
    RelationUpsert,
    RelationDelete,
}

/// A log fragment by name.
#[derive(Debug, Clone)]
pub struct FragmentRef {
    pub id: String,
    pub seq: u64,
    pub kind: FragmentKind,
}

/// A segment by name.
#[derive(Debug, Clone)]
pub struct SegmentRef {
    pub id: String,
    pub records: u64,
}

/// A manifest: the segments, and the fragments that no segment holds yet.
#[derive(Debug, Clone)]
pub struct Manifest {
    pub segments: Vec<SegmentRef>,
    /// In sequence order.
    pub uncompacted: Vec<FragmentRef>,
    /// The number of the next fragment.
    pub next_seq: u64,
    /// The last fragment that a segment holds.
    pub compaction_watermark: Option<u64>,
}

/// The fragment comes after another one.
pub open spec fn is_after(through: u64) -> spec_fn(FragmentRef) -> bool {
    |f: FragmentRef| f.seq > through
}

impl Manifest {
    /// The fragments stand in sequence order, behind those that segments hold and
    /// before the next one.
    pub open spec fn wf(&self) -> bool {
        &&& forall|i: int, j: int|
            0 <= i < j < self.uncompacted@.len() ==> (#[trigger] self.uncompacted@[i]).seq < (
            #[trigger] self.uncompacted@[j]).seq
        &&& forall|i: int|
            0 <= i < self.uncompacted@.len() ==> (#[trigger] self.uncompacted@[i]).seq
                < self.next_seq
        &&& self.compaction_watermark matches Some(w) ==> w < self.next_seq && forall|i: int|
            0 <= i < self.uncompacted@.len() ==> w < (#[trigger] self.uncompacted@[i]).seq
    }

    /// The manifest of a namespace with nothing in it.
    pub fn new() -> (r: Manifest)
        ensures
            r.segments@.len() == 0,
            r.uncompacted@.len() == 0,
            r.next_seq == 0,
            r.compaction_watermark is None,
            r.wf(),
    {
        Manifest {
            segments: Vec::new(),
            uncompacted: Vec::new(),
            next_seq: 0,
            compaction_watermark: None,
        }
    }

    /// Whether the manifest is sound, as one that was read should be.
    pub fn is_sound(&self) -> (r: bool)
        ensures
            r == self.wf(),
    {
        let n: usize = self.uncompacted.len();
        if let Some(w) = self.compaction_watermark {
            if w >= self.next_seq {
                return false;
            }
            if n > 0 && self.uncompacted[0].seq <= w {
                return false;
            }
        }
        let mut i: usize = 0;
        while i < n
            invariant
                n == self.uncompacted@.len(),
                i <= n,
                self.compaction_watermark matches Some(w) ==> w < self.next_seq && (n > 0 ==> w
                    < self.uncompacted@[0].seq),
                forall|a: int, b: int|
                    0 <= a < b < i ==> (#[trigger] self.uncompacted@[a]).seq < (
                    #[trigger] self.uncompacted@[b]).seq,
                forall|a: int|
                    0 <= a < i ==> (#[trigger] self.uncompacted@[a]).seq < self.next_seq,
            decreases n - i,
        {
            if self.uncompacted[i].seq >= self.next_seq {
                return false;
            }
            if i > 0 && self.uncompacted[i - 1].seq >= self.uncompacted[i].seq {
                return false;
            }
            proof {
                assert forall|a: int, b: int| 0 <= a < b < i + 1 implies (
                #[trigger] self.uncompacted@[a]).seq < (#[trigger] self.uncompacted@[b]).seq by {
                    if b == i && a < i - 1 {
                        assert(self.uncompacted@[a].seq < self.uncompacted@[i - 1].seq);
                    }
                }
            }
            i = i + 1;
        }
        proof {
            assert forall|a: int| 0 <= a < n implies (match self.compaction_watermark {
                Some(w) => w < (#[trigger] self.uncompacted@[a]).seq,
                None => true,
            }) by {
                if a > 0 {
                    assert(self.uncompacted@[0].seq < self.uncompacted@[a].seq);
                }
            }
        }
        true
    }

    /// Appends a fragment to the log, and gives its number.
    pub fn append(&mut self, id: String, kind: FragmentKind) -> (seq: u64)
        requires
            old(self).next_seq < u64::MAX,
        ensures
            seq == old(self).next_seq,
            final(self).uncompacted@ == old(self).uncompacted@.push(FragmentRef { id, seq, kind }),
            final(self).next_seq == seq + 1,
            final(self).segments == old(self).segments,
            final(self).compaction_watermark == old(self).compaction_watermark,
            old(self).wf() ==> final(self).wf(),
    {
        let seq: u64 = self.next_seq;
        self.uncompacted.push(FragmentRef { id, seq, kind });
        self.next_seq = seq + 1;
        seq
    }

    /// Appends the segment that the log up to a fragment was folded into, and
    /// takes those fragments out of the log.
    pub fn fold(&mut self, segment: SegmentRef, through: u64)
        requires
            through < old(self).next_seq,
        ensures
            final(self).segments@ == old(self).segments@.push(segment),
            final(self).uncompacted@ == old(self).uncompacted@.filter(is_after(through)),
            final(self).next_seq == old(self).next_seq,
            final(self).compaction_watermark == Some(through),
            old(self).wf() ==> final(self).wf(),
    {
        let ghost before = *self;
        self.segments.push(segment);
        let mut rest: Vec<FragmentRef> = Vec::new();
        std::mem::swap(&mut rest, &mut self.uncompacted);
        self.uncompacted = fragments_after(rest, through);
        self.compaction_watermark = Some(through);
        proof {
            if before.wf() {
                lemma_after_in_order(before.uncompacted@, through);
            }
        }
    }

    /// Puts one segment in place of all segments and the log.
    pub fn merge(&mut self, segment: SegmentRef)
        requires
            old(self).wf(),
        ensures
            final(self).segments@ == seq![segment],
            final(self).uncompacted@.len() == 0,
            final(self).next_seq == old(self).next_seq,
            final(self).compaction_watermark == (if old(self).uncompacted@.len() > 0 {
                Some(last_seq(old(self).uncompacted@))
            } else {
                old(self).compaction_watermark
            }),
            final(self).wf(),
    {
        if self.uncompacted.len() > 0 {
            let through: u64 = find_last_seq(&self.uncompacted);
            proof {
                lemma_last_seq_bound(self.uncompacted@, self.next_seq);
            }
            self.compaction_watermark = Some(through);
        }
        let mut segments: Vec<SegmentRef> = Vec::new();
        segments.push(segment);
        self.segments = segments;
        self.uncompacted = Vec::new();
        proof {
            assert(self.segments@ =~= seq![segment]);
        }
    }
}

proof fn lemma_last_seq_bound(refs: Seq<FragmentRef>, bound: u64)
    requires
        refs.len() > 0,
        forall|i: int| 0 <= i < refs.len() ==> (#[trigger] refs[i]).seq < bound,
    ensures
        last_seq(refs) < bound,
    decreases refs.len(),
{
    let init = refs.drop_last();
    assert(refs[refs.len() - 1].seq < bound);
    if init.len() > 0 {
        assert forall|i: int| 0 <= i < init.len() implies (#[trigger] init[i]).seq < bound by {
            assert(init[i] == refs[i]);
        }
        lemma_last_seq_bound(init, bound);
    } else {
        reveal_with_fuel(last_seq, 2);
    }
}

proof fn lemma_after_in_order(refs: Seq<FragmentRef>, through: u64)
    requires
        forall|i: int, j: int|
            0 <= i < j < refs.len() ==> (#[trigger] refs[i]).seq < (#[trigger] refs[j]).seq,
    ensures
        forall|i: int, j: int|
            0 <= i < j < refs.filter(is_after(through)).len() ==> (#[trigger] refs.filter(
                is_after(through),
            )[i]).seq < (#[trigger] refs.filter(is_after(through))[j]).seq,
        forall|i: int|
            0 <= i < refs.filter(is_after(through)).len() ==> refs.contains(
                #[trigger] refs.filter(is_after(through))[i],
            ) && refs.filter(is_after(through))[i].seq > through,
    decreases refs.len(),
{
    reveal(Seq::filter);
    let p = is_after(through);
    let kept = refs.filter(p);
    if refs.len() > 0 {
        let init = refs.drop_last();
        lemma_after_in_order(init, through);
        let before = init.filter(p);
        assert forall|i: int| 0 <= i < kept.len() implies refs.contains(#[trigger] kept[i])
            && kept[i].seq > through by {
            if i < before.len() {
                assert(kept[i] == before[i]);
                let k = choose|k: int| 0 <= k < init.len() && init[k] == before[i];
                assert(refs[k] == kept[i]);
            } else {
                assert(refs[refs.len() - 1] == kept[i]);
            }
        }
        assert forall|i: int, j: int| 0 <= i < j < kept.len() implies (#[trigger] kept[i]).seq < (
        #[trigger] kept[j]).seq by {
            assert(kept[i] == before[i]);
            if j < before.len() {
                assert(kept[j] == before[j]);
            } else {
                assert(init.contains(before[i]));
                let k = choose|k: int| 0 <= k < init.len() && init[k] == before[i];
                assert(refs[k].seq < refs[refs.len() - 1].seq);
            }
        }
    }
}

fn fragments_after(refs: Vec<FragmentRef>, through: u64) -> (r: Vec<FragmentRef>)
    ensures
        r@ == refs@.filter(is_after(through)),
{
    let ghost all = refs@;
    let ghost p = is_after(through);
    let mut out: Vec<FragmentRef> = Vec::new();
    let mut done: Ghost<int> = Ghost(0);
    proof {
        reveal(Seq::filter);
        assert(all.subrange(0, 0) =~= Seq::empty());
    }
    for f in it: refs
        invariant
            it.seq() == all,
            done@ == it.index(),
            0 <= done@ <= all.len(),
            p == is_after(through),
            out@ == all.subrange(0, done@).filter(p),
    {
        proof {
            let shorter = all.subrange(0, done@);
            assert(all.subrange(0, done@ + 1) =~= shorter.push(f));
            crate::assoc::lemma_filter_push(shorter, f, p);
            done@ = done@ + 1;
        }
        if f.seq > through {
            out.push(f);
        }
    }
    proof {
        assert(all.subrange(0, all.len() as int) =~= all);
    }
    out
}

// ── Refreshing ──────────────────────────────────────────────────────────

/// What a node learns from the configuration in object storage.
#[derive(Debug)]
pub enum ConfigSync {
    /// Nothing new.
    Unchanged,
    /// The vector spaces or their default changed: spaces to be made, and
    /// spaces to be dropped.
    Synced { added: Vec<String>, removed: Vec<String> },
    /// The collection was deleted and created again.
    Recreated,
}

/// The texts of one list that another lacks.
pub open spec fn lacking(other: Seq<Seq<char>>) -> spec_fn(Seq<char>) -> bool {
    |n: Seq<char>| !other.contains(n)
}

fn names_lacking(names: &Vec<String>, other: &Vec<String>) -> (r: Vec<String>)
    ensures
        text_views(r@) == text_views(names@).filter(lacking(text_views(other@))),
{
    let ghost all = text_views(names@);
    let ghost p = lacking(text_views(other@));
    let mut out: Vec<String> = Vec::new();
    let mut i: usize = 0;
    proof {
        reveal(Seq::filter);
        assert(all.subrange(0, 0) =~= Seq::empty());
        assert(text_views(out@) =~= Seq::empty());
    }
    while i < names.len()
        invariant
            i <= names@.len(),
            all == text_views(names@),
            p == lacking(text_views(other@)),
            text_views(out@) == all.subrange(0, i as int).filter(p),
        decreases names.len() - i,
    {
        proof {
            let shorter = all.subrange(0, i as int);
            assert(all.subrange(0, i + 1) =~= shorter.push(all[i as int]));
            crate::assoc::lemma_filter_push(shorter, all[i as int], p);
        }
        if !texts_contain(other, names[i].as_str()) {
            let ghost before = text_views(out@);
            out.push(names[i].clone());
            proof {
                assert(text_views(out@) =~= before.push(all[i as int]));
            }
        }
        i = i + 1;
    }
    proof {
        assert(all.subrange(0, all.len() as int) =~= all);
    }
    out
}

fn configured_names(cfg: &BucketConfig) -> (r: Vec<String>)
    ensures
        text_views(r@).to_set() == cfg@.vector_spaces.dom(),
        text_views(r@).no_duplicates(),
{
    let n: usize = cfg.vector_spaces.len();
    let mut out: Vec<String> = Vec::new();
    let mut i: usize = 0;
    while i < n
        invariant
            n == cfg.vector_spaces.pairs().len(),
            i <= n,
            out@.len() == i,
            forall|k: int| 0 <= k < i ==> (#[trigger] out@[k])@ == cfg.vector_spaces.pairs()[k].0,
        decreases n - i,
    {
        out.push(cfg.vector_spaces.key_at(i).clone());
        i = i + 1;
    }
    proof {
        crate::assoc::lemma_pairs_len(cfg.vector_spaces.pairs());
        assert(text_views(out@) =~= crate::assoc::pair_keys(cfg.vector_spaces.pairs()));
    }
    out
}

/// The metadata with the vector spaces, the default and the configuration that
/// object storage has.
pub open spec fn synced(c: CollectionView, b: BucketView) -> CollectionView {
    CollectionView {
        vector_spaces: b.vector_spaces,
        default_vector_space: b.default_vector_space,
        config: b.config,
        ..c
    }
}

/// Takes over what object storage says of the vector spaces. `present` are the
/// spaces that the node has indexes of.
pub fn sync_config(metadata: &mut Collection, cfg: &BucketConfig, present: &Vec<String>) -> (r:
    ConfigSync)
    ensures
        r is Recreated <==> old(metadata).created_at != cfg.created_at,
        r is Synced <==> old(metadata).created_at == cfg.created_at && (
        old(metadata)@.vector_spaces != cfg@.vector_spaces || old(metadata)@.default_vector_space
            != cfg@.default_vector_space),
        final(metadata)@ == (if r is Synced {
            synced(old(metadata)@, cfg@)
        } else {
            old(metadata)@
        }),
        r matches ConfigSync::Synced { added, removed } ==> {
            &&& text_views(added@).no_duplicates()
            &&& forall|s: Seq<char>| #[trigger]
                text_views(added@).contains(s) <==> cfg@.vector_spaces.contains_key(s)
                    && !text_views(present@).contains(s)
            &&& forall|s: Seq<char>| #[trigger]
                text_views(removed@).contains(s) <==> text_views(present@).contains(s)
                    && !cfg@.vector_spaces.contains_key(s)
        },
{
    if metadata.created_at != cfg.created_at {
        return ConfigSync::Recreated;
    }
    if spaces_equal(&metadata.vector_spaces, &cfg.vector_spaces) && optional_text_eq(
        &metadata.default_vector_space,
        &cfg.default_vector_space,
    ) {
        return ConfigSync::Unchanged;
    }
    let wanted = configured_names(cfg);
    let added = names_lacking(&wanted, present);
    let removed = names_lacking(present, &wanted);
    proof {
        let w = text_views(wanted@);
        let p = text_views(present@);
        assert forall|s: Seq<char>| #[trigger] w.contains(s) == cfg@.vector_spaces.contains_key(s) by {
            assert(w.to_set().contains(s) == w.contains(s));
        }
        assert forall|s: Seq<char>| #[trigger]
            text_views(added@).contains(s) <==> cfg@.vector_spaces.contains_key(s) && !p.contains(
                s,
            ) by {
            crate::assoc::lemma_filter_contains(w, lacking(p), s);
            assert(w.contains(s) == cfg@.vector_spaces.contains_key(s));
        }
        assert forall|s: Seq<char>| #[trigger]
            text_views(removed@).contains(s) <==> p.contains(s) && !cfg@.vector_spaces.contains_key(
                s,
            ) by {
            crate::assoc::lemma_filter_contains(p, lacking(w), s);
            assert(w.contains(s) == cfg@.vector_spaces.contains_key(s));
        }
        lemma_filter_no_duplicates(w, lacking(p));
    }
    metadata.vector_spaces = cfg.vector_spaces.duplicate();
    metadata.default_vector_space = duplicate_text(&cfg.default_vector_space);
    metadata.config = cfg.config.duplicate();
    ConfigSync::Synced { added, removed }
}

proof fn lemma_filter_no_duplicates<A>(s: Seq<A>, p: spec_fn(A) -> bool)
    requires
        s.no_duplicates(),
    ensures
        s.filter(p).no_duplicates(),
    decreases s.len(),
{
    reveal(Seq::filter);
    if s.len() > 0 {
        let init = s.drop_last();
        lemma_filter_no_duplicates(init, p);
        crate::assoc::lemma_filter_contains(init, p, s.last());
        if init.contains(s.last()) {
            let k = choose|k: int| 0 <= k < init.len() && init[k] == s.last();
            assert(s[k] == s[s.len() - 1]);
        }
    }
}

/// Compaction has passed the frontier: entries that the node may not have
/// applied are in segments only.
pub open spec fn compaction_passed(watermark: Option<u64>, contiguous: u64) -> bool {
    watermark is Some && watermark->0 + 1 > contiguous
}

/// Whether a node must rebuild its copy: the collection was created anew, or
/// compaction has passed the node's frontier.
pub fn needs_reattach(recreated: bool, watermark: Option<u64>, contiguous: u64) -> (r: bool)
    ensures
        r == (recreated || compaction_passed(watermark, contiguous)),
{
    recreated || match watermark {
        Some(w) => w >= contiguous,
        None => false,
    }
}

/// Whether the rebuild is still needed once the collection's attach lock is
/// held: another request may have rebuilt it meanwhile.
pub fn reattach_still_needed(
    recreated: bool,
    attached: Option<(Timestamp, u64)>,
    configured_at: Option<Timestamp>,
    watermark: Option<u64>,
) -> (r: bool)
    ensures
        r == (match attached {
            None => true,
            Some((created_at, contiguous)) => {
                (recreated && configured_at is Some && configured_at->0 != created_at)
                    || compaction_passed(watermark, contiguous)
            },
        }),
{
    match attached {
        None => true,
        Some((created_at, contiguous)) => {
            let stale = match configured_at {
                Some(t) => t != created_at,
                None => false,
            };
            (recreated && stale) || match watermark {
                Some(w) => w >= contiguous,
                None => false,
            }
        },
    }
}

/// The fragment is not below the frontier.
pub open spec fn from_frontier(contiguous: u64) -> spec_fn(FragmentRef) -> bool {
    |f: FragmentRef| f.seq >= contiguous
}

/// The fragments that a node at this frontier may still have to apply, in
/// sequence order.
pub fn pending_fragments(uncompacted: Vec<FragmentRef>, contiguous: u64) -> (r: Vec<FragmentRef>)
    ensures
        r@ == uncompacted@.filter(from_frontier(contiguous)),
{
    let ghost all = uncompacted@;
    let ghost p = from_frontier(contiguous);
    let mut out: Vec<FragmentRef> = Vec::new();
    let mut done: Ghost<int> = Ghost(0);
    proof {
        reveal(Seq::filter);
        assert(all.subrange(0, 0) =~= Seq::empty());
    }
    for f in it: uncompacted
        invariant
            it.seq() == all,
            done@ == it.index(),
            0 <= done@ <= all.len(),
            p == from_frontier(contiguous),
            out@ == all.subrange(0, done@).filter(p),
    {
        proof {
            let shorter = all.subrange(0, done@);
            assert(all.subrange(0, done@ + 1) =~= shorter.push(f));
            crate::assoc::lemma_filter_push(shorter, f, p);
            done@ = done@ + 1;
        }
        if f.seq >= contiguous {
            out.push(f);
        }
    }
    proof {
        assert(all.subrange(0, all.len() as int) =~= all);
    }
    out
}

/// What to make of a manifest that could not be read: gone means that another
/// node deleted the collection.
pub fn manifest_unreadable(name: &str, gone: bool, text: &str) -> (r: EngineError)
    ensures
        r@ == failure(
            if gone {
                "collection '"@ + name@ + "' was deleted in object storage"@
            } else {
                text@
            },
        ),
{
    if gone {
        let mut s = own("collection '");
        s.append(name);
        s.append("' was deleted in object storage");
        EngineError::Failed(s)
    } else {
        EngineError::Failed(own(text))
    }
}

// ── Compaction ──────────────────────────────────────────────────────────

/// A log of this many fragments is compacted.
pub const AUTO_COMPACT_FRAGMENT_THRESHOLD: usize = 32;

/// This many segments are left side by side before they are merged.
pub const MERGE_SEGMENTS: usize = 8;

/// How often a conditional write of the manifest is tried.
pub const MAX_COMPACT_ATTEMPTS: u32 = 10;

/// Whether a log is long enough to be compacted.
pub fn wants_compaction(uncompacted: usize) -> (r: bool)
    ensures
        r == (uncompacted >= 32),
{
    uncompacted >= AUTO_COMPACT_FRAGMENT_THRESHOLD
}

/// Where a compaction stands.
#[derive(Debug, Clone, Copy, PartialEq, Eq, Structural)]
pub enum Compaction {
    /// Folding the log into a segment; so many attempts were in vain.
    Folding { failed: u32 },
    /// The log was folded in this run.
    Folded,
    /// Merging the segments; so many attempts were in vain.
    Merging { failed: u32 },
}

/// What a compaction does with a manifest that it has read.
#[derive(Debug, Clone, Copy, PartialEq, Eq, Structural)]
pub enum CompactAction {
    /// Fold the log up to this fragment into a segment and append it.
    Fold { through: u64 },
    /// Replace all segments and the log by one segment.
    Merge,
    /// Read the manifest again.
    Reread,
    /// Count the live records in the segments; that is the result.
    Count,
    /// Done; so many records are live.
    Done { records: u64 },
}

/// The last fragment of a log.
pub open spec fn last_seq(refs: Seq<FragmentRef>) -> u64
    decreases refs.len(),
{
    if refs.len() == 0 {
        0
    } else {
        let before = last_seq(refs.drop_last());
        if refs.last().seq > before {
            refs.last().seq
        } else {
            before
        }
    }
}

/// What a compaction does with a manifest. A run that folded the log does not
/// merge: readers of the manifest before may still need the fragments.
pub open spec fn compact_action(state: Compaction, m: Manifest) -> (Compaction, CompactAction) {
    match state {
        Compaction::Folding { failed } => if m.uncompacted@.len() == 0 {
            (Compaction::Merging { failed: 0 }, CompactAction::Reread)
        } else {
            (state, CompactAction::Fold { through: last_seq(m.uncompacted@) })
        },
        Compaction::Folded => (state, CompactAction::Count),
        Compaction::Merging { failed } => if m.segments@.len() <= MERGE_SEGMENTS {
            (state, CompactAction::Count)
        } else {
            (state, CompactAction::Merge)
        },
    }
}

fn find_last_seq(refs: &Vec<FragmentRef>) -> (r: u64)
    ensures
        r == last_seq(refs@),
{
    let mut max: u64 = 0;
    let mut i: usize = 0;
    proof {
        assert(refs@.subrange(0, 0) =~= Seq::empty());
    }
    while i < refs.len()
        invariant
            i <= refs@.len(),
            max == last_seq(refs@.subrange(0, i as int)),
        decreases refs.len() - i,
    {
        if refs[i].seq > max {
            max = refs[i].seq;
        }
        proof {
            let longer = refs@.subrange(0, i + 1);
            assert(longer.drop_last() =~= refs@.subrange(0, i as int));
            assert(longer.last() == refs@[i as int]);
        }
        i = i + 1;
    }
    proof {
        assert(refs@.subrange(0, refs@.len() as int) =~= refs@);
    }
    max
}

/// The number of live records that a store's segments add up to, deleted ones not
/// counted: what a compaction reports.
pub fn count_live(segments: Vec<Segment>) -> (r: u64)
    ensures
        r == apply_segments(segments@).chunks.dom().len(),
{
    let ghost segs = segments@;
    let live = materialize(segments, Vec::new());
    proof {
        assert(log_events(Seq::<Fragment>::empty()) =~= Seq::empty());
    }
    live.chunks.len() as u64
}

impl Compaction {
    /// A compaction about to begin.
    pub fn start() -> (r: Compaction)
        ensures
            r == (Compaction::Folding { failed: 0 }),
    {
        Compaction::Folding { failed: 0 }
    }

    /// What to do with a manifest that was just read.
    pub fn on_manifest(self, m: &Manifest) -> (r: (Compaction, CompactAction))
        ensures
            r == compact_action(self, *m),
    {
        match self {
            Compaction::Folding { failed } => {
                if m.uncompacted.len() == 0 {
                    (Compaction::Merging { failed: 0 }, CompactAction::Reread)
                } else {
                    (self, CompactAction::Fold { through: find_last_seq(&m.uncompacted) })
                }
            },
            Compaction::Folded => (self, CompactAction::Count),
            Compaction::Merging { failed } => {
                if m.segments.len() <= MERGE_SEGMENTS {
                    (self, CompactAction::Count)
                } else {
                    (self, CompactAction::Merge)
                }
            },
        }
    }

    /// What to do after the manifest was, or was not, written. `records` is the
    /// number of records in the segment written; they are all live after a merge. After too many conflicts a
    /// fold is given up for this run, and a merge fails.
    pub fn on_written(self, conflict: bool, records: u64) -> (r: Result<
        (Compaction, CompactAction),
        StorageError,
    >)
        ensures
            match self {
                Compaction::Folding { failed } => r matches Ok(n) && n.1 == CompactAction::Reread
                    && n.0 == (if !conflict {
                    Compaction::Folded
                } else if failed + 1 < MAX_COMPACT_ATTEMPTS {
                    Compaction::Folding { failed: (failed + 1) as u32 }
                } else {
                    Compaction::Merging { failed: 0 }
                }),
                Compaction::Folded => r matches Ok(n) && n == (self, CompactAction::Reread),
                Compaction::Merging { failed } => if !conflict {
                    r matches Ok(n) && n == (self, CompactAction::Done { records })
                } else if failed + 1 < MAX_COMPACT_ATTEMPTS {
                    r matches Ok(n) && n == (
                        Compaction::Merging { failed: (failed + 1) as u32 },
                        CompactAction::Reread,
                    )
                } else {
                    r matches Err(e) && e.is_io(
                        "compaction failed after max CAS retries (persistent contention)"@,
                    )
                },
            },
    {
        match self {
            Compaction::Folding { failed } => {
                if !conflict {
                    Ok((Compaction::Folded, CompactAction::Reread))
                } else if failed < MAX_COMPACT_ATTEMPTS - 1 {
                    Ok((Compaction::Folding { failed: failed + 1 }, CompactAction::Reread))
                } else {
                    Ok((Compaction::Merging { failed: 0 }, CompactAction::Reread))
                }
            },
            Compaction::Folded => Ok((self, CompactAction::Reread)),
            Compaction::Merging { failed } => {
                if !conflict {
                    Ok((self, CompactAction::Done { records }))
                } else if failed < MAX_COMPACT_ATTEMPTS - 1 {
                    Ok((Compaction::Merging { failed: failed + 1 }, CompactAction::Reread))
                } else {
                    Err(
                        StorageError::Io(
                            own("compaction failed after max CAS retries (persistent contention)"),
                        ),
                    )
                }
            },
        }
    }
}

// ── Laws ────────────────────────────────────────────────────────────────

/// A refresh misses nothing: unless the node rebuilds its copy, every entry that
/// compaction has folded is applied already, and every other entry that is not
/// applied is pending.
pub proof fn law_refresh_misses_nothing(
    tracker: SeqTracker,
    uncompacted: Seq<FragmentRef>,
    watermark: Option<u64>,
)
    requires
        tracker.wf(),
        !compaction_passed(watermark, tracker.contiguous),
    ensures
        forall|s: u64| watermark is Some && s <= watermark->0 ==> #[trigger] tracker.applied(s),
        forall|f: FragmentRef| #[trigger]
            uncompacted.contains(f) && !tracker.applied(f.seq) ==> uncompacted.filter(
                from_frontier(tracker.contiguous),
            ).contains(f),
{
    assert forall|f: FragmentRef| #[trigger]
        uncompacted.contains(f) && !tracker.applied(f.seq) implies uncompacted.filter(
        from_frontier(tracker.contiguous),
    ).contains(f) by {
        crate::assoc::lemma_filter_contains(uncompacted, from_frontier(tracker.contiguous), f);
    }
}

/// A run that folded the log never merges.
pub proof fn law_fold_and_merge_are_apart(m: Manifest)
    ensures
        compact_action(Compaction::Folded, m).0 == Compaction::Folded,
        compact_action(Compaction::Folded, m).1 is Count,
{
}

/// Folding through the last fragment of a log leaves none of it behind.
pub proof fn law_fold_covers_log(refs: Seq<FragmentRef>, i: int)
    requires
        0 <= i < refs.len(),
    ensures
        refs[i].seq <= last_seq(refs),
    decreases refs.len(),
{
    if i < refs.len() - 1 {
        law_fold_covers_log(refs.drop_last(), i);
        assert(refs.drop_last()[i] == refs[i]);
    }
}

/// Folding takes out exactly the fragments up to the given one, and a refresh leaves out
/// exactly those before the frontier.
pub proof fn law_folded_and_pending_fragments(
    refs: Seq<FragmentRef>,
    through: u64,
    contiguous: u64,
    f: FragmentRef,
)
    ensures
        refs.filter(is_after(through)).contains(f) <==> refs.contains(f) && through < f.seq,
        refs.filter(from_frontier(contiguous)).contains(f) <==> refs.contains(f) && contiguous
            <= f.seq,
{
    crate::assoc::lemma_filter_contains(refs, is_after(through), f);
    crate::assoc::lemma_filter_contains(refs, from_frontier(contiguous), f);
}

/// Compaction has passed a node exactly where a segment holds a fragment that the node
/// has not applied in a row: one at or after its frontier.
pub proof fn law_compaction_passes_the_frontier(folded: u64, contiguous: u64)
    ensures
        compaction_passed(Some(folded), contiguous) <==> contiguous <= folded,
        !compaction_passed(None, contiguous),
{
}

/// The last fragment of a log is one of the log's, and the log falls empty when it is
/// folded through that one.
pub proof fn law_last_fragment_is_in_the_log(refs: Seq<FragmentRef>)
    requires
        refs.len() > 0,
    ensures
        exists|i: int| 0 <= i < refs.len() && (#[trigger] refs[i]).seq == last_seq(refs),
        refs.filter(is_after(last_seq(refs))).len() == 0,
    decreases refs.len(),
{
    let init = refs.drop_last();
    if refs.last().seq > last_seq(init) || init.len() == 0 {
        assert(refs[refs.len() - 1].seq == last_seq(refs));
    } else {
        law_last_fragment_is_in_the_log(init);
        let i = choose|i: int| 0 <= i < init.len() && (#[trigger] init[i]).seq == last_seq(init);
        assert(refs[i].seq == last_seq(refs));
    }
    let left = refs.filter(is_after(last_seq(refs)));
    if left.len() > 0 {
        crate::assoc::lemma_filter_contains(refs, is_after(last_seq(refs)), left[0]);
        assert(left.contains(left[0]));
        let i = choose|i: int| 0 <= i < refs.len() && refs[i] == left[0];
        law_fold_covers_log(refs, i);
    }
}

/// Taking over a configuration changes the vector spaces, their default and the settings
/// to those configured, and nothing else.
pub proof fn law_synced_takes_the_configuration(c: CollectionView, b: BucketView)
    ensures
        synced(c, b).vector_spaces == b.vector_spaces,
        synced(c, b).default_vector_space == b.default_vector_space,
        synced(c, b).config == b.config,
        synced(c, b).name == c.name && synced(c, b).created_at == c.created_at,
        synced(c, b).chunk_count == c.chunk_count && synced(c, b).next_id == c.next_id,
        synced(c, b).applied_seq == c.applied_seq && synced(c, b).embedding_dims
            == c.embedding_dims,
{
}

/// A name is lacking exactly where it is not among the others.
pub proof fn law_lacking_names(names: Seq<Seq<char>>, other: Seq<Seq<char>>, n: Seq<char>)
    ensures
        names.filter(lacking(other)).contains(n) <==> names.contains(n) && !other.contains(n),
{
    crate::assoc::lemma_filter_contains(names, lacking(other), n);
}

/// A log that holds anything is folded, through its last fragment; where there is nothing
/// to fold the segments are merged as soon as there are more than 8 of them, and are
/// counted otherwise.
pub proof fn law_what_compaction_does(failed: u32, m: Manifest)
    ensures
        m.uncompacted@.len() > 0 ==> compact_action(Compaction::Folding { failed }, m) == (
            Compaction::Folding { failed },
            CompactAction::Fold { through: last_seq(m.uncompacted@) },
        ),
        m.uncompacted@.len() == 0 ==> compact_action(Compaction::Folding { failed }, m) == (
            Compaction::Merging { failed: 0 },
            CompactAction::Reread,
        ),
        compact_action(Compaction::Merging { failed }, m).0 == (Compaction::Merging { failed }),
        compact_action(Compaction::Merging { failed }, m).1 == (if m.segments@.len() > 8 {
            CompactAction::Merge
        } else {
            CompactAction::Count
        }),
{
}

/// A log of 32 fragments calls for compaction; a compaction merges more than 8 segments, and
/// gives up after 10 attempts that lost a race.
pub proof fn law_compaction_limits()
    ensures
        AUTO_COMPACT_FRAGMENT_THRESHOLD == 32,
        MERGE_SEGMENTS == 8,
        MAX_COMPACT_ATTEMPTS == 10,
{
}

} // verus!
