//! Putting a decoded segment together: embeddings back to their chunks, and the
//! id lists of log fragments.
use crate::assoc::{distinct_keys, has_key, lemma_pairs_at, lookup, pairs_map};
use crate::duplicate::text_views;
use crate::id_map::IdMap;
use crate::json::{ids_from_json, ids_of_json, texts_from_json, texts_of_json};
use crate::le::push_bytes;
use crate::lsm::Segment;
use crate::models::{chunk_views, ChunkRelation, ChunkView, DocumentChunk};
use crate::segment::{
    decoded, joined_rows, row_items, section_views, Section, SectionView, SegmentParts, SegmentRow,
};
use crate::segment_encode::{
    fields_suffice, is_file_of, law_segment_reads_back, read_sections, read_spaces,
};
use crate::storage_error::{io_error, StorageError};
use crate::string_map::StringMap;
use crate::vectors::{by_space, vectors_in, SpaceRows};
use crate::duplicate::Duplicate;
use vstd::prelude::*;

verus! {

/// What a list of spaces with their vectors says.
pub open spec fn spaces_view(s: Seq<(String, SpaceRows)>) -> Seq<
    (Seq<char>, Seq<(u64, Seq<u32>)>),
> {
    Seq::new(s.len(), |i: int| (s[i].0@, s[i].1@))
}

/// The embeddings collected for a chunk, none at first.
pub open spec fn gathered(m: Map<u64, Map<Seq<char>, Seq<u32>>>, id: u64) -> Map<
    Seq<char>,
    Seq<u32>,
> {
    if m.contains_key(id) {
        m[id]
    } else {
        Map::empty()
    }
}

/// The embeddings by chunk with the vectors of one more space.
pub open spec fn with_space(
    m: Map<u64, Map<Seq<char>, Seq<u32>>>,
    space: Seq<char>,
    rows: Seq<(u64, Seq<u32>)>,
) -> Map<u64, Map<Seq<char>, Seq<u32>>>
    decreases rows.len(),
{
    if rows.len() == 0 {
        m
    } else {
        let before = with_space(m, space, rows.drop_last());
        let (id, v) = rows.last();
        before.insert(id, gathered(before, id).insert(space, v))
    }
}

/// The embeddings by chunk; the last vector of a chunk in a space counts.
pub open spec fn collected(spaces: Seq<(Seq<char>, Seq<(u64, Seq<u32>)>)>) -> Map<
    u64,
    Map<Seq<char>, Seq<u32>>,
>
    decreases spaces.len(),
{
    if spaces.len() == 0 {
        Map::empty()
    } else {
        with_space(collected(spaces.drop_last()), spaces.last().0, spaces.last().1)
    }
}

/// A chunk with its embeddings put back: those collected for its id go to the
/// first chunk of that id, every other chunk keeps what it has.
pub open spec fn with_embeddings(
    chunks: Seq<ChunkView>,
    m: Map<u64, Map<Seq<char>, Seq<u32>>>,
    i: int,
) -> ChunkView {
    let c = chunks[i];
    if m.contains_key(c.id) && (forall|j: int| 0 <= j < i ==> (#[trigger] chunks[j]).id != c.id) {
        ChunkView { embeddings: m[c.id], ..c }
    } else {
        c
    }
}

fn collect_space(
    found: &mut IdMap<StringMap<Vec<u32>>>,
    space: &String,
    rows: &SpaceRows,
)
    ensures
        final(found)@ == with_space(old(found)@, space@, rows@),
{
    let ghost start = found@;
    let mut i: usize = 0;
    proof {
        assert(rows@.subrange(0, 0) =~= Seq::empty());
    }
    while i < rows.rows.len()
        invariant
            i <= rows.rows@.len(),
            found@ == with_space(start, space@, rows@.subrange(0, i as int)),
        decreases rows.rows.len() - i,
    {
        let id: u64 = rows.rows[i].0;
        let mut mine: StringMap<Vec<u32>> = match found.remove(id) {
            Some(m) => m,
            None => StringMap::new(),
        };
        mine.insert(space.clone(), rows.rows[i].1.duplicate());
        let ghost before = with_space(start, space@, rows@.subrange(0, i as int));
        found.insert(id, mine);
        proof {
            let longer = rows@.subrange(0, i + 1);
            assert(longer.drop_last() =~= rows@.subrange(0, i as int));
            assert(longer.last() == rows@[i as int]);
            assert(found@ =~= with_space(start, space@, longer));
        }
        i = i + 1;
    }
    proof {
        assert(rows@.subrange(0, rows@.len() as int) =~= rows@);
    }
}

/// Puts the embeddings of a segment back to its chunks.
pub fn attach_embeddings(chunks: Vec<DocumentChunk>, spaces: &Vec<(String, SpaceRows)>) -> (r: Vec<
    DocumentChunk,
>)
    ensures
        r@.len() == chunks@.len(),
        forall|i: int|
            0 <= i < r@.len() ==> (#[trigger] r@[i])@ == with_embeddings(
                chunk_views(chunks@),
                collected(spaces_view(spaces@)),
                i,
            ),
{
    let mut found: IdMap<StringMap<Vec<u32>>> = IdMap::new();
    let ghost all = spaces_view(spaces@);
    let ghost m = collected(all);
    let mut k: usize = 0;
    proof {
        assert(all.subrange(0, 0) =~= Seq::empty());
    }
    while k < spaces.len()
        invariant
            k <= spaces@.len(),
            all == spaces_view(spaces@),
            found@ == collected(all.subrange(0, k as int)),
        decreases spaces.len() - k,
    {
        collect_space(&mut found, &spaces[k].0, &spaces[k].1);
        proof {
            let longer = all.subrange(0, k + 1);
            assert(longer.drop_last() =~= all.subrange(0, k as int));
            assert(longer.last() == all[k as int]);
        }
        k = k + 1;
    }
    proof {
        assert(all.subrange(0, all.len() as int) =~= all);
    }
    let ghost items = chunks@;
    let ghost views = chunk_views(items);
    let mut out: Vec<DocumentChunk> = Vec::new();
    let mut done: Ghost<int> = Ghost(0);
    for chunk in it: chunks
        invariant
            it.seq() == items,
            done@ == it.index(),
            0 <= done@ <= items.len(),
            views == chunk_views(items),
            m == collected(all),
            out@.len() == done@,
            forall|id: u64| #[trigger]
                found@.contains_key(id) <==> m.contains_key(id) && forall|j: int|
                    0 <= j < done@ ==> (#[trigger] views[j]).id != id,
            forall|id: u64| #[trigger] found@.contains_key(id) ==> found@[id] == m[id],
            forall|i: int| 0 <= i < done@ ==> (#[trigger] out@[i])@ == with_embeddings(views, m, i),
    {
        let mut c = chunk;
        let ghost before = c@;
        proof {
            assert(before == views[done@]);
        }
        match found.remove(c.id) {
            Some(e) => {
                c.embeddings = e;
            },
            None => {},
        }
        proof {
            assert(c@ == with_embeddings(views, m, done@));
        }
        out.push(c);
        proof {
            done@ = done@ + 1;
        }
    }
    out
}

// ── The whole segment ───────────────────────────────────────────────────

/// A segment file taken apart: what is JSON is left as it is.
#[derive(Debug)]
pub struct SegmentBody {
    /// A JSON list of chunks, of an older layout.
    pub meta: Option<Vec<u8>>,
    /// Chunks as JSON rows, which come after those of the list.
    pub rows: Vec<u8>,
    /// A JSON list of edges.
    pub relations: Option<Vec<u8>>,
    pub tombstones: Vec<u64>,
    pub relation_tombstones: Vec<String>,
    /// The spaces with their vectors.
    pub spaces: Vec<(String, SpaceRows)>,
    /// The clustered sections: of each its space, whether it holds the centroids, and
    /// its bytes.
    pub clustered: Vec<(String, bool, Vec<u8>)>,
}

/// What a segment taken apart holds.
#[verifier::ext_equal]
pub struct BodyView {
    pub meta: Option<Seq<u8>>,
    pub rows: Seq<u8>,
    pub relations: Option<Seq<u8>>,
    pub tombstones: Seq<u64>,
    pub relation_tombstones: Seq<Seq<char>>,
    pub spaces: Seq<(Seq<char>, Seq<(u64, Seq<u32>)>)>,
    pub clustered: Seq<(Seq<char>, bool, Seq<u8>)>,
}

/// What a list of clustered sections says.
pub open spec fn clustered_view(s: Seq<(String, bool, Vec<u8>)>) -> Seq<
    (Seq<char>, bool, Seq<u8>),
> {
    Seq::new(s.len(), |i: int| (s[i].0@, s[i].1, s[i].2@))
}

impl View for SegmentBody {
    type V = BodyView;

    open spec fn view(&self) -> BodyView {
        BodyView {
            meta: match self.meta {
                Some(b) => Some(b@),
                None => None,
            },
            rows: self.rows@,
            relations: match self.relations {
                Some(b) => Some(b@),
                None => None,
            },
            tombstones: self.tombstones@,
            relation_tombstones: text_views(self.relation_tombstones@),
            spaces: spaces_view(self.spaces@),
            clustered: clustered_view(self.clustered@),
        }
    }
}

/// A segment without sections.
pub open spec fn no_sections() -> BodyView {
    BodyView {
        meta: None,
        rows: Seq::empty(),
        relations: None,
        tombstones: Seq::empty(),
        relation_tombstones: Seq::empty(),
        spaces: Seq::empty(),
        clustered: Seq::empty(),
    }
}

/// A segment with one section more. A list of chunks takes the place of what came
/// before it, and so do the edges and the deletes; rows and spaces add up.
pub open spec fn with_section(b: BodyView, s: SectionView) -> BodyView {
    match s {
        SectionView::Meta(m) => BodyView { meta: Some(m), rows: Seq::empty(), ..b },
        SectionView::Rows(r) => BodyView { rows: b.rows + r, ..b },
        SectionView::Centroids { space, body } => BodyView {
            clustered: b.clustered.push((space, true, body)),
            ..b
        },
        SectionView::Clusters { space, body } => BodyView {
            clustered: b.clustered.push((space, false, body)),
            ..b
        },
        SectionView::Embeddings { space, rows } => BodyView {
            spaces: b.spaces.push((space, rows)),
            ..b
        },
        SectionView::Relations(r) => BodyView { relations: Some(r), ..b },
        SectionView::Tombstones(ids) => BodyView { tombstones: ids, ..b },
        SectionView::RelationTombstones(ids) => BodyView { relation_tombstones: ids, ..b },
        SectionView::Skipped => b,
    }
}

/// What a list of sections adds up to.
pub open spec fn body_of(sections: Seq<SectionView>) -> BodyView
    decreases sections.len(),
{
    if sections.len() == 0 {
        no_sections()
    } else {
        with_section(body_of(sections.drop_last()), sections.last())
    }
}

impl SegmentBody {
    fn new() -> (r: SegmentBody)
        ensures
            r@ == no_sections(),
    {
        let r = SegmentBody {
            meta: None,
            rows: Vec::new(),
            relations: None,
            tombstones: Vec::new(),
            relation_tombstones: Vec::new(),
            spaces: Vec::new(),
            clustered: Vec::new(),
        };
        proof {
            assert(r@ =~= no_sections());
        }
        r
    }

    fn add(&mut self, section: Section)
        ensures
            final(self)@ == with_section(old(self)@, section@),
    {
        match section {
            Section::Meta(b) => {
                self.meta = Some(b);
                self.rows = Vec::new();
            },
            Section::Rows(b) => {
                push_bytes(&mut self.rows, b.as_slice());
            },
            Section::Centroids { space, body } => {
                self.clustered.push((space, true, body));
            },
            Section::Clusters { space, body } => {
                self.clustered.push((space, false, body));
            },
            Section::Embeddings { space, rows } => {
                self.spaces.push((space, rows));
            },
            Section::Relations(b) => {
                self.relations = Some(b);
            },
            Section::Tombstones(ids) => {
                self.tombstones = ids;
            },
            Section::RelationTombstones(ids) => {
                self.relation_tombstones = ids;
            },
            Section::Skipped => {},
        }
        proof {
            assert(self@ =~= with_section(old(self)@, section@));
        }
    }
}

/// Takes the sections of a segment file together.
pub fn gather_sections(sections: Vec<Section>) -> (r: SegmentBody)
    ensures
        r@ == body_of(section_views(sections@)),
{
    let ghost items = sections@;
    let ghost all = section_views(items);
    let mut body = SegmentBody::new();
    let mut done: Ghost<int> = Ghost(0);
    proof {
        assert(all.subrange(0, 0) =~= Seq::empty());
    }
    for section in it: sections
        invariant
            it.seq() == items,
            all == section_views(items),
            done@ == it.index(),
            0 <= done@ <= items.len(),
            body@ == body_of(all.subrange(0, done@)),
    {
        proof {
            let longer = all.subrange(0, done@ + 1);
            assert(longer.drop_last() =~= all.subrange(0, done@));
            assert(longer.last() == section@);
            done@ = done@ + 1;
        }
        body.add(section);
    }
    proof {
        assert(all.subrange(0, all.len() as int) =~= all);
    }
    body
}

/// The segment that a file holds: `chunks` and `relations` are what its JSON says.
/// The embeddings go back to their chunks.
pub fn assemble_segment(
    max_id: u64,
    body: SegmentBody,
    chunks: Vec<DocumentChunk>,
    relations: Vec<ChunkRelation>,
) -> (r: Segment)
    ensures
        r.version == 2,
        r.max_id == max_id,
        r.tombstones@ == body@.tombstones,
        text_views(r.relation_tombstones@) == body@.relation_tombstones,
        r.relations == relations,
        chunk_views(r.chunks@) == all_with_embeddings(chunk_views(chunks@), body@.spaces),
{
    let ghost views = chunk_views(chunks@);
    let ghost spaces = spaces_view(body.spaces@);
    let attached = attach_embeddings(chunks, &body.spaces);
    proof {
        assert(chunk_views(attached@) =~= all_with_embeddings(views, spaces));
    }
    Segment {
        version: 2,
        chunks: attached,
        relations,
        max_id,
        tombstones: body.tombstones,
        relation_tombstones: body.relation_tombstones,
    }
}

/// Chunks with the embeddings of a segment put back to them.
pub open spec fn all_with_embeddings(
    chunks: Seq<ChunkView>,
    spaces: Seq<(Seq<char>, Seq<(u64, Seq<u32>)>)>,
) -> Seq<ChunkView> {
    Seq::new(chunks.len(), |i: int| with_embeddings(chunks, collected(spaces), i))
}

/// The chunk ids of a delete fragment.
pub fn decode_ids(bytes: &[u8]) -> (r: Result<Vec<u64>, StorageError>)
    ensures
        r is Ok <==> ids_of_json(bytes@) is Ok,
        r matches Ok(ids) ==> ids@ == ids_of_json(bytes@)->Ok_0,
        r matches Err(e) ==> e.is_io("tombstone decode: "@ + ids_of_json(bytes@)->Err_0),
{
    match ids_from_json(bytes) {
        Ok(ids) => Ok(ids),
        Err(e) => Err(io_error("tombstone decode: ", e.as_str())),
    }
}

/// The edge ids of an edge delete fragment.
pub fn decode_relation_ids(bytes: &[u8]) -> (r: Result<Vec<String>, StorageError>)
    ensures
        r is Ok <==> texts_of_json(bytes@) is Ok,
        r matches Ok(ids) ==> text_views(ids@) == texts_of_json(bytes@)->Ok_0,
        r matches Err(e) ==> e.is_io("relation-delete decode: "@ + texts_of_json(bytes@)->Err_0),
{
    match texts_from_json(bytes) {
        Ok(ids) => Ok(ids),
        Err(e) => Err(io_error("relation-delete decode: ", e.as_str())),
    }
}

// ── Laws ────────────────────────────────────────────────────────────────

/// The vector of a chunk in a space, if there is one.
pub open spec fn entry(
    m: Map<u64, Map<Seq<char>, Seq<u32>>>,
    id: u64,
    space: Seq<char>,
) -> Option<Seq<u32>> {
    lookup(gathered(m, id), space)
}

proof fn lemma_with_space(
    m: Map<u64, Map<Seq<char>, Seq<u32>>>,
    space: Seq<char>,
    rows: Seq<(u64, Seq<u32>)>,
    id: u64,
    s: Seq<char>,
)
    requires
        distinct_keys(rows),
    ensures
        entry(with_space(m, space, rows), id, s) == (if s == space && has_key(rows, id) {
            Some(pairs_map(rows)[id])
        } else {
            entry(m, id, s)
        }),
        with_space(m, space, rows).contains_key(id) <==> m.contains_key(id) || has_key(rows, id),
    decreases rows.len(),
{
    if rows.len() > 0 {
        let init = rows.drop_last();
        let last = rows.last();
        assert forall|i: int, j: int| 0 <= i < j < init.len() implies (#[trigger] init[i]).0 != (
        #[trigger] init[j]).0 by {
            assert(rows[i].0 != rows[j].0);
        }
        lemma_with_space(m, space, init, id, s);
        if has_key(init, id) {
            let i = choose|i: int| 0 <= i < init.len() && (#[trigger] init[i]).0 == id;
            assert(rows[i].0 == id);
            lemma_pairs_at(init, i);
            lemma_pairs_at(rows, i);
            assert(rows[i].0 != rows[rows.len() - 1].0);
        }
        if last.0 == id {
            assert(rows[rows.len() - 1].0 == id);
            lemma_pairs_at(rows, rows.len() - 1);
        }
        if has_key(rows, id) && last.0 != id {
            let i = choose|i: int| 0 <= i < rows.len() && (#[trigger] rows[i]).0 == id;
            assert(init[i].0 == id);
        }
    }
}

proof fn lemma_collected(
    spaces: Seq<(Seq<char>, Seq<(u64, Seq<u32>)>)>,
    id: u64,
    s: Seq<char>,
)
    requires
        distinct_keys(spaces),
        forall|i: int| 0 <= i < spaces.len() ==> distinct_keys((#[trigger] spaces[i]).1),
    ensures
        entry(collected(spaces), id, s) == (if has_key(spaces, s) && has_key(
            pairs_map(spaces)[s],
            id,
        ) {
            Some(pairs_map(pairs_map(spaces)[s])[id])
        } else {
            None
        }),
        collected(spaces).contains_key(id) <==> exists|i: int|
            0 <= i < spaces.len() && has_key((#[trigger] spaces[i]).1, id),
    decreases spaces.len(),
{
    if spaces.len() > 0 {
        let init = spaces.drop_last();
        let last = spaces.last();
        assert forall|i: int, j: int| 0 <= i < j < init.len() implies (#[trigger] init[i]).0 != (
        #[trigger] init[j]).0 by {
            assert(spaces[i].0 != spaces[j].0);
        }
        assert forall|i: int| 0 <= i < init.len() implies distinct_keys((#[trigger] init[i]).1) by {
            assert(init[i] == spaces[i]);
        }
        lemma_collected(init, id, s);
        assert(distinct_keys(spaces[spaces.len() - 1].1));
        lemma_with_space(collected(init), last.0, last.1, id, s);
        if has_key(init, s) {
            let i = choose|i: int| 0 <= i < init.len() && (#[trigger] init[i]).0 == s;
            assert(spaces[i].0 == s);
            lemma_pairs_at(init, i);
            lemma_pairs_at(spaces, i);
            assert(spaces[i].0 != spaces[spaces.len() - 1].0);
        }
        if last.0 == s {
            assert(spaces[spaces.len() - 1].0 == s);
            lemma_pairs_at(spaces, spaces.len() - 1);
        }
        if has_key(spaces, s) && last.0 != s {
            let i = choose|i: int| 0 <= i < spaces.len() && (#[trigger] spaces[i]).0 == s;
            assert(init[i].0 == s);
        }
        if exists|i: int| 0 <= i < init.len() && has_key((#[trigger] init[i]).1, id) {
            let i = choose|i: int| 0 <= i < init.len() && has_key((#[trigger] init[i]).1, id);
            assert(has_key(spaces[i].1, id));
        }
        if has_key(last.1, id) {
            assert(has_key(spaces[spaces.len() - 1].1, id));
        }
        if exists|i: int| 0 <= i < spaces.len() && has_key((#[trigger] spaces[i]).1, id) {
            let i = choose|i: int| 0 <= i < spaces.len() && has_key((#[trigger] spaces[i]).1, id);
            if i < init.len() {
                assert(has_key(init[i].1, id));
            }
        }
    }
}

proof fn lemma_vectors_distinct(items: Seq<(u64, Map<Seq<char>, Seq<u32>>)>, s: Seq<char>, id: u64)
    requires
        distinct_keys(items),
    ensures
        distinct_keys(vectors_in(items, s)),
        has_key(vectors_in(items, s), id) <==> has_key(items, id) && pairs_map(
            items,
        )[id].contains_key(s),
        has_key(vectors_in(items, s), id) ==> pairs_map(vectors_in(items, s))[id] == pairs_map(
            items,
        )[id][s],
    decreases items.len(),
{
    let v = vectors_in(items, s);
    if items.len() == 0 {
        assert(v =~= Seq::empty());
    } else {
        let init = items.drop_last();
        let last = items.last();
        let vi = vectors_in(init, s);
        assert forall|i: int, j: int| 0 <= i < j < init.len() implies (#[trigger] init[i]).0 != (
        #[trigger] init[j]).0 by {
            assert(items[i].0 != items[j].0);
        }
        lemma_vectors_distinct(init, s, id);
        lemma_vectors_distinct(init, s, last.0);
        assert(!has_key(init, last.0)) by {
            if has_key(init, last.0) {
                let i = choose|i: int| 0 <= i < init.len() && (#[trigger] init[i]).0 == last.0;
                assert(items[i].0 != items[items.len() - 1].0);
            }
        }
        crate::assoc::lemma_pairs_insert(init, init.len() as int, last.0, last.1);
        assert(init.insert(init.len() as int, last) =~= items);
        if last.1.contains_key(s) {
            crate::assoc::lemma_pairs_insert(vi, vi.len() as int, last.0, last.1[s]);
            assert(vi.insert(vi.len() as int, (last.0, last.1[s])) =~= v);
        }
        assert(pairs_map(items).contains_key(id) == has_key(items, id));
        assert(pairs_map(v).contains_key(id) == has_key(v, id));
        assert(pairs_map(init).contains_key(id) == has_key(init, id));
        assert(pairs_map(vi).contains_key(id) == has_key(vi, id));
    }
}

/// Sorting embeddings out by space and collecting them by chunk again gives
/// each chunk the embeddings that it had; a chunk without any gets none.
pub proof fn law_embeddings_come_back(
    items: Seq<(u64, Map<Seq<char>, Seq<u32>>)>,
    spaces: Seq<(Seq<char>, Seq<(u64, Seq<u32>)>)>,
    i: int,
)
    requires
        distinct_keys(items),
        distinct_keys(spaces),
        by_space(items, pairs_map(spaces)),
        0 <= i < items.len(),
    ensures
        gathered(collected(spaces), items[i].0) == items[i].1,
        collected(spaces).contains_key(items[i].0) <==> items[i].1 != Map::<
            Seq<char>,
            Seq<u32>,
        >::empty(),
{
    let id = items[i].0;
    let mine = items[i].1;
    let got = gathered(collected(spaces), id);
    lemma_pairs_at(items, i);
    assert(has_key(items, id));
    assert forall|k: int| 0 <= k < spaces.len() implies distinct_keys((#[trigger] spaces[k]).1) by {
        lemma_pairs_at(spaces, k);
        assert(pairs_map(spaces).contains_key(spaces[k].0));
        lemma_vectors_distinct(items, spaces[k].0, id);
    }
    assert forall|s: Seq<char>| lookup(got, s) == lookup(mine, s) by {
        lemma_collected(spaces, id, s);
        lemma_vectors_distinct(items, s, id);
        assert(pairs_map(spaces).contains_key(s) == has_key(spaces, s));
        if mine.contains_key(s) {
            let v = vectors_in(items, s);
            let j = choose|j: int| 0 <= j < v.len() && (#[trigger] v[j]).0 == id;
            assert(v.len() > 0);
            assert(pairs_map(spaces).contains_key(s));
        }
    }
    assert forall|s: Seq<char>| got.dom().contains(s) == mine.dom().contains(s) by {
        assert(lookup(got, s) == lookup(mine, s));
    }
    assert forall|s: Seq<char>| got.dom().contains(s) implies got[s] == mine[s] by {
        assert(lookup(got, s) == lookup(mine, s));
    }
    assert(got =~= mine);
    lemma_collected(spaces, id, Seq::empty());
    if collected(spaces).contains_key(id) {
        let k = choose|k: int| 0 <= k < spaces.len() && has_key((#[trigger] spaces[k]).1, id);
        lemma_pairs_at(spaces, k);
        assert(pairs_map(spaces).contains_key(spaces[k].0));
        lemma_vectors_distinct(items, spaces[k].0, id);
        assert(mine.contains_key(spaces[k].0));
    } else {
        assert(got =~= Map::empty());
    }
}

/// Chunks without their embeddings, as the JSON of a segment has them.
pub open spec fn bare(chunks: Seq<ChunkView>) -> Seq<ChunkView> {
    Seq::new(chunks.len(), |i: int| ChunkView { embeddings: Map::empty(), ..chunks[i] })
}

/// The rows are those of the chunks: the same ids and embeddings.
pub open spec fn rows_of_chunks(rows: Seq<SegmentRow>, chunks: Seq<ChunkView>) -> bool {
    &&& rows.len() == chunks.len()
    &&& forall|i: int|
        0 <= i < rows.len() ==> (#[trigger] rows[i]).id == chunks[i].id && rows[i].embeddings@
            == chunks[i].embeddings
}

proof fn lemma_body_of_spaces(
    first: Seq<SectionView>,
    spaces: Seq<(Seq<char>, Seq<(u64, Seq<u32>)>)>,
)
    requires
        body_of(first).spaces == Seq::<(Seq<char>, Seq<(u64, Seq<u32>)>)>::empty(),
    ensures
        body_of(first + read_spaces(spaces, Map::empty())) == (BodyView {
            spaces,
            ..body_of(first)
        }),
    decreases spaces.len(),
{
    if spaces.len() == 0 {
        assert(first + read_spaces(spaces, Map::empty()) =~= first);
        assert(spaces =~= Seq::empty());
    } else {
        let init = spaces.drop_last();
        lemma_body_of_spaces(first, init);
        let s = SectionView::Embeddings { space: spaces.last().0, rows: spaces.last().1 };
        let whole = first + read_spaces(spaces, Map::empty());
        assert(whole =~= (first + read_spaces(init, Map::empty())).push(s));
        assert(whole.drop_last() =~= first + read_spaces(init, Map::empty()));
        assert(init.push(spaces.last()) =~= spaces);
    }
}

proof fn lemma_body_push(sections: Seq<SectionView>, s: SectionView)
    ensures
        body_of(sections.push(s)) == with_section(body_of(sections), s),
{
    assert(sections.push(s).drop_last() =~= sections);
}

/// What a written segment is taken apart into: its rows, vectors, edges and deletes.
pub proof fn law_body_comes_back(
    parts: SegmentParts,
    rows: Seq<SegmentRow>,
    spaces: Seq<(Seq<char>, Seq<(u64, Seq<u32>)>)>,
)
    ensures
        body_of(read_sections(parts, rows, spaces, Map::empty())) == (BodyView {
            meta: None,
            rows: joined_rows(rows),
            relations: Some(parts.relations@),
            tombstones: parts.tombstones@,
            relation_tombstones: text_views(parts.relation_tombstones@),
            spaces,
            clustered: Seq::empty(),
        }),
{
    let v0 = SectionView::Rows(joined_rows(rows));
    let v1 = SectionView::Relations(parts.relations@);
    let v2 = SectionView::Tombstones(parts.tombstones@);
    let v3 = SectionView::RelationTombstones(text_views(parts.relation_tombstones@));
    let none = Seq::<SectionView>::empty();
    let first = none.push(v0).push(SectionView::Skipped);
    lemma_body_push(none, v0);
    lemma_body_push(none.push(v0), SectionView::Skipped);
    assert(Seq::<u8>::empty() + joined_rows(rows) =~= joined_rows(rows));
    lemma_body_of_spaces(first, spaces);
    let middle = first + read_spaces(spaces, Map::empty());
    lemma_body_push(middle, v1);
    lemma_body_push(middle.push(v1), v2);
    lemma_body_push(middle.push(v1).push(v2), v3);
    assert(read_sections(parts, rows, spaces, Map::empty()) =~= middle.push(v1).push(v2).push(v3));
}

/// A segment comes back whole. Of a written segment without clustered spaces whose
/// chunk ids are distinct, `chunks` being its chunks in order of the ids: reading gives
/// the high-water mark, the JSON of the chunks and of the edges, and the deletes, as
/// they were written; and once that JSON is read as the chunks without their
/// embeddings, every chunk gets all its embeddings back, bit by bit.
pub proof fn law_segment_comes_back(
    parts: SegmentParts,
    rows: Seq<SegmentRow>,
    spaces: Seq<(Seq<char>, Seq<(u64, Seq<u32>)>)>,
    rtombs: Seq<u8>,
    toc: Seq<u8>,
    b: Seq<u8>,
    chunks: Seq<ChunkView>,
)
    requires
        is_file_of(parts, Map::empty(), rows, spaces, rtombs, toc, b),
        fields_suffice(toc, spaces, Map::empty()),
        rows_of_chunks(rows, chunks),
        forall|i: int, j: int|
            0 <= i < j < rows.len() ==> (#[trigger] rows[i]).id != (#[trigger] rows[j]).id,
    ensures
        decoded(b) matches Ok(d) && d.0 == parts.max_id && body_of(d.1) == (BodyView {
            meta: None,
            rows: joined_rows(rows),
            relations: Some(parts.relations@),
            tombstones: parts.tombstones@,
            relation_tombstones: text_views(parts.relation_tombstones@),
            spaces,
            clustered: Seq::empty(),
        }) && all_with_embeddings(bare(chunks), body_of(d.1).spaces) == chunks,
{
    law_segment_reads_back(parts, Map::empty(), rows, spaces, rtombs, toc, b);
    law_body_comes_back(parts, rows, spaces);
    let items = row_items(rows);
    assert(distinct_keys(items));
    assert forall|i: int, j: int| 0 <= i < j < spaces.len() implies (#[trigger] spaces[i]).0 != (
    #[trigger] spaces[j]).0 by {
        assert(crate::order::text_lt(spaces[i].0, spaces[j].0));
        crate::order::lemma_text_order(spaces[i].0, spaces[j].0, spaces[j].0);
    }
    let m = collected(spaces);
    let got = all_with_embeddings(bare(chunks), spaces);
    assert forall|i: int| 0 <= i < chunks.len() implies #[trigger] got[i] == chunks[i] by {
        law_embeddings_come_back(items, spaces, i);
        assert(items[i].0 == rows[i].id && items[i].1 == rows[i].embeddings@);
        assert(bare(chunks)[i].id == chunks[i].id);
        assert forall|j: int| 0 <= j < i implies (#[trigger] bare(chunks)[j]).id
            != chunks[i].id by {
            assert(rows[j].id != rows[i].id);
        }
        assert(got[i] =~= chunks[i]);
    }
    assert(got =~= chunks);
}

/// Each section goes to its own part of a segment: later rows come after earlier ones, an
/// older list of chunks takes the place of the rows, and of the deletes and the edges the
/// last section counts.
pub proof fn law_sections_go_to_their_parts(
    before: Seq<SectionView>,
    body: Seq<u8>,
    space: Seq<char>,
    rows: Seq<(u64, Seq<u32>)>,
    ids: Seq<u64>,
    names: Seq<Seq<char>>,
)
    ensures
        body_of(before.push(SectionView::Rows(body))) == (BodyView {
            rows: body_of(before).rows + body,
            ..body_of(before)
        }),
        body_of(before.push(SectionView::Meta(body))).meta == Some(body),
        body_of(before.push(SectionView::Relations(body))) == (BodyView {
            relations: Some(body),
            ..body_of(before)
        }),
        body_of(before.push(SectionView::Tombstones(ids))) == (BodyView {
            tombstones: ids,
            ..body_of(before)
        }),
        body_of(before.push(SectionView::RelationTombstones(names))) == (BodyView {
            relation_tombstones: names,
            ..body_of(before)
        }),
        body_of(before.push(SectionView::Embeddings { space, rows })) == (BodyView {
            spaces: body_of(before).spaces.push((space, rows)),
            ..body_of(before)
        }),
        body_of(before.push(SectionView::Centroids { space, body })) == (BodyView {
            clustered: body_of(before).clustered.push((space, true, body)),
            ..body_of(before)
        }),
        body_of(before.push(SectionView::Clusters { space, body })) == (BodyView {
            clustered: body_of(before).clustered.push((space, false, body)),
            ..body_of(before)
        }),
        body_of(before.push(SectionView::Skipped)) == body_of(before),
        body_of(Seq::empty()).tombstones.len() == 0 && body_of(Seq::empty()).relations is None,
{
    lemma_body_push(before, SectionView::Rows(body));
    lemma_body_push(before, SectionView::Meta(body));
    lemma_body_push(before, SectionView::Relations(body));
    lemma_body_push(before, SectionView::Tombstones(ids));
    lemma_body_push(before, SectionView::RelationTombstones(names));
    lemma_body_push(before, SectionView::Embeddings { space, rows });
    lemma_body_push(before, SectionView::Centroids { space, body });
    lemma_body_push(before, SectionView::Clusters { space, body });
    lemma_body_push(before, SectionView::Skipped);
}

} // verus!
