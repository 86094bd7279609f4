//! Segment files: `[magic][u64 max_id][u32 toc_len][toc JSON][sections...]`.
//!
//! Sections:
//!
//! - `meta2`: the chunks as JSON rows without embeddings, one after the other,
//!   in order of the ids, so that a row can be fetched by its byte range
//! - `metaidx`: `[u64 n][n × (u64 id, u64 offset, u32 length)]` into `meta2`
//! - `emb:<space>`: `[u32 dims][u64 n][n × (u64 id, dims × f32)]`
//! - `cent:<space>` and `clu:<space>`: centroids and clustered vectors, in place
//!   of `emb:<space>` for spaces with many vectors
//! - `rels` (JSON), `tombs` (u64 array), `rtombs` (JSON list of ids)
use crate::assoc::{distinct_keys, pairs_map};
use crate::duplicate::text_views;
use crate::json::{texts_from_json, texts_of_json, toc_from_json, toc_of_json, toc_view};
use crate::le::{le32, le64, push_bytes, push_u32, push_u64, read_u32, read_u64, u32_at, u64_at};
use crate::sorting::{sort_by_rank, sorted_form};
use crate::storage_error::{io_error, StorageError};
use crate::string_map::StringMap;
use crate::text::{own, starts_with_text, strip_text_prefix, text_eq};
use crate::vectors::{add_vectors, by_space, vectors_in, SpaceRows};
use vstd::prelude::*;
use vstd::slice::*;
use vstd::string::*;

verus! {

/// A chunk of a segment: its JSON row without embeddings, and its embeddings.
#[derive(Debug)]
pub struct SegmentRow {
    pub id: u64,
    pub row: Vec<u8>,
    pub embeddings: StringMap<Vec<u32>>,
}

/// The parts of a segment, its chunks and its edges as JSON.
#[derive(Debug)]
pub struct SegmentParts {
    pub rows: Vec<SegmentRow>,
    /// The list of edges as JSON.
    pub relations: Vec<u8>,
    pub max_id: u64,
    pub tombstones: Vec<u64>,
    pub relation_tombstones: Vec<String>,
}

/// The two sections of a clustered space.
#[derive(Debug)]
pub struct ClusterSections {
    pub cent: Vec<u8>,
    pub clu: Vec<u8>,
}

impl View for ClusterSections {
    type V = (Seq<u8>, Seq<u8>);

    open spec fn view(&self) -> (Seq<u8>, Seq<u8>) {
        (self.cent@, self.clu@)
    }
}

/// Whether a space with this many vectors of this many components is stored in
/// clusters. `min_rows` is the clustering threshold.
pub fn wants_clusters(rows: usize, dims: usize, min_rows: usize) -> (r: bool)
    ensures
        r == (rows >= min_rows && dims > 0),
{
    rows >= min_rows && dims > 0
}

// ── Layout ──────────────────────────────────────────────────────────────

/// The first eight bytes of a segment file of the present layout.
pub open spec fn magic_v3() -> Seq<u8> {
    seq![0x43u8, 0x53, 0x45, 0x47, 0x30, 0x30, 0x30, 0x33]
}

/// The first eight bytes of a segment file of the layout before.
pub open spec fn magic_v2() -> Seq<u8> {
    seq![0x43u8, 0x53, 0x45, 0x47, 0x30, 0x30, 0x30, 0x32]
}

/// Rows with their ids as ranks.
pub open spec fn ranked_rows(rows: Seq<SegmentRow>) -> Seq<(i128, SegmentRow)> {
    Seq::new(rows.len(), |i: int| (rows[i].id as i128, rows[i]))
}

/// `sorted` is `rows` in order of the ids; rows of one id keep their order.
pub open spec fn rows_in_order(rows: Seq<SegmentRow>, sorted: Seq<SegmentRow>) -> bool {
    sorted_form(ranked_rows(rows), ranked_rows(sorted))
}

/// The embeddings of the rows.
pub open spec fn row_items(rows: Seq<SegmentRow>) -> Seq<(u64, Map<Seq<char>, Seq<u32>>)> {
    Seq::new(rows.len(), |i: int| (rows[i].id, rows[i].embeddings@))
}

/// The rows one after the other.
pub open spec fn joined_rows(rows: Seq<SegmentRow>) -> Seq<u8>
    decreases rows.len(),
{
    if rows.len() == 0 {
        Seq::empty()
    } else {
        joined_rows(rows.drop_last()) + rows.last().row@
    }
}

/// Id, offset and length of each row.
pub open spec fn index_entries(rows: Seq<SegmentRow>) -> Seq<u8>
    decreases rows.len(),
{
    if rows.len() == 0 {
        Seq::empty()
    } else {
        index_entries(rows.drop_last()) + le64(rows.last().id) + le64(
            joined_rows(rows.drop_last()).len() as u64,
        ) + le32((rows.last().row@.len() % 0x1_0000_0000) as u32)
    }
}

/// The row index section.
pub open spec fn index_section(rows: Seq<SegmentRow>) -> Seq<u8> {
    le64(rows.len() as u64) + index_entries(rows)
}

/// The components of a vector.
pub open spec fn vector_bytes(v: Seq<u32>) -> Seq<u8>
    decreases v.len(),
{
    if v.len() == 0 {
        Seq::empty()
    } else {
        vector_bytes(v.drop_last()) + le32(v.last())
    }
}

/// Vectors with their ids.
pub open spec fn vector_rows(rows: Seq<(u64, Seq<u32>)>) -> Seq<u8>
    decreases rows.len(),
{
    if rows.len() == 0 {
        Seq::empty()
    } else {
        vector_rows(rows.drop_last()) + le64(rows.last().0) + vector_bytes(rows.last().1)
    }
}

/// The number of components of the vectors of a space: that of the first.
pub open spec fn dims_of(rows: Seq<(u64, Seq<u32>)>) -> nat {
    if rows.len() == 0 {
        0
    } else {
        rows[0].1.len()
    }
}

/// All vectors of the space have the same number of components.
pub open spec fn even_dims(rows: Seq<(u64, Seq<u32>)>) -> bool {
    forall|i: int| 0 <= i < rows.len() ==> (#[trigger] rows[i]).1.len() == dims_of(rows)
}

/// The section of a space that is not clustered.
pub open spec fn flat_section(rows: Seq<(u64, Seq<u32>)>) -> Seq<u8> {
    le32((dims_of(rows) % 0x1_0000_0000) as u32) + le64(rows.len() as u64) + vector_rows(rows)
}

/// The sections of one space.
pub open spec fn space_sections(
    space: Seq<char>,
    rows: Seq<(u64, Seq<u32>)>,
    clusters: Map<Seq<char>, (Seq<u8>, Seq<u8>)>,
) -> Seq<(Seq<char>, Seq<u8>)> {
    if clusters.contains_key(space) {
        seq![("cent:"@ + space, clusters[space].0), ("clu:"@ + space, clusters[space].1)]
    } else {
        seq![("emb:"@ + space, flat_section(rows))]
    }
}

/// The sections of a list of spaces.
pub open spec fn all_space_sections(
    spaces: Seq<(Seq<char>, Seq<(u64, Seq<u32>)>)>,
    clusters: Map<Seq<char>, (Seq<u8>, Seq<u8>)>,
) -> Seq<(Seq<char>, Seq<u8>)>
    decreases spaces.len(),
{
    if spaces.len() == 0 {
        Seq::empty()
    } else {
        all_space_sections(spaces.drop_last(), clusters) + space_sections(
            spaces.last().0,
            spaces.last().1,
            clusters,
        )
    }
}

/// Ids one after the other.
pub open spec fn id_bytes(ids: Seq<u64>) -> Seq<u8>
    decreases ids.len(),
{
    if ids.len() == 0 {
        Seq::empty()
    } else {
        id_bytes(ids.drop_last()) + le64(ids.last())
    }
}

/// What a list of named sections says.
pub open spec fn sections_view(s: Seq<(String, Vec<u8>)>) -> Seq<(Seq<char>, Seq<u8>)> {
    Seq::new(s.len(), |i: int| (s[i].0@, s[i].1@))
}

/// The table of contents of a list of sections.
pub open spec fn toc_of(sections: Seq<(Seq<char>, Seq<u8>)>) -> Seq<(Seq<char>, u64)> {
    Seq::new(sections.len(), |i: int| (sections[i].0, sections[i].1.len() as u64))
}

/// The bodies of the sections one after the other.
pub open spec fn joined_bodies(sections: Seq<(Seq<char>, Seq<u8>)>) -> Seq<u8>
    decreases sections.len(),
{
    if sections.len() == 0 {
        Seq::empty()
    } else {
        joined_bodies(sections.drop_last()) + sections.last().1
    }
}

/// The sections of a segment: `rows` are its rows in order of the ids, `spaces`
/// its spaces in dictionary order, `rtombs` its deleted edges as JSON.
pub open spec fn segment_sections(
    parts: SegmentParts,
    rows: Seq<SegmentRow>,
    spaces: Seq<(Seq<char>, Seq<(u64, Seq<u32>)>)>,
    clusters: Map<Seq<char>, (Seq<u8>, Seq<u8>)>,
    rtombs: Seq<u8>,
) -> Seq<(Seq<char>, Seq<u8>)> {
    seq![("meta2"@, joined_rows(rows)), ("metaidx"@, index_section(rows))] + all_space_sections(
        spaces,
        clusters,
    ) + seq![
        ("rels"@, parts.relations@),
        ("tombs"@, id_bytes(parts.tombstones@)),
        ("rtombs"@, rtombs),
    ]
}

/// A segment file: header, table of contents, sections.
pub open spec fn file_bytes(max_id: u64, toc: Seq<u8>, sections: Seq<(Seq<char>, Seq<u8>)>) -> Seq<
    u8,
> {
    magic_v3() + le64(max_id) + le32((toc.len() % 0x1_0000_0000) as u32) + toc + joined_bodies(
        sections,
    )
}

// ── Encoding ────────────────────────────────────────────────────────────

pub(crate) fn order_rows(rows: Vec<SegmentRow>) -> (r: Vec<SegmentRow>)
    ensures
        rows_in_order(rows@, r@),
{
    let ghost all = rows@;
    let mut ranked: Vec<(i128, SegmentRow)> = Vec::new();
    let mut done: Ghost<int> = Ghost(0);
    for row in it: rows
        invariant
            it.seq() == all,
            done@ == it.index(),
            0 <= done@ <= all.len(),
            ranked@ == ranked_rows(all).subrange(0, done@),
    {
        ranked.push((row.id as i128, row));
        proof {
            assert(ranked@ =~= ranked_rows(all).subrange(0, done@ + 1));
            done@ = done@ + 1;
        }
    }
    proof {
        assert(ranked@ =~= ranked_rows(all));
    }
    let sorted = sort_by_rank(ranked);
    let ghost pairs = sorted@;
    proof {
        assert forall|i: int| 0 <= i < pairs.len() implies (#[trigger] pairs[i]).0
            == pairs[i].1.id as i128 by {
            let k = pairs[i].0;
            crate::assoc::lemma_filter_contains(pairs, crate::sorting::of_rank(k), pairs[i]);
            assert(pairs.contains(pairs[i]));
            assert(pairs.filter(crate::sorting::of_rank(k)) == ranked_rows(all).filter(
                crate::sorting::of_rank(k),
            ));
            crate::assoc::lemma_filter_contains(
                ranked_rows(all),
                crate::sorting::of_rank(k),
                pairs[i],
            );
            let j = choose|j: int| 0 <= j < ranked_rows(all).len() && ranked_rows(all)[j] == pairs[i];
        }
        done@ = 0;
    }
    let mut out: Vec<SegmentRow> = Vec::new();
    for e in it: sorted
        invariant
            it.seq() == pairs,
            done@ == it.index(),
            0 <= done@ <= pairs.len(),
            out@.len() == done@,
            forall|i: int| 0 <= i < done@ ==> #[trigger] out@[i] == pairs[i].1,
    {
        out.push(e.1);
        proof {
            done@ = done@ + 1;
        }
    }
    proof {
        assert(ranked_rows(out@) =~= pairs);
    }
    out
}

/// The vectors of a segment by space. Fails for the first space, in dictionary
/// order, whose vectors differ in the number of components.
pub fn segment_spaces(rows: &Vec<SegmentRow>) -> (r: Result<StringMap<SpaceRows>, StorageError>)
    ensures
        r matches Ok(g) ==> by_space(row_items(rows@), g@) && forall|s: Seq<char>| #[trigger]
            g@.contains_key(s) ==> even_dims(g@[s]),
        r matches Err(e) ==> exists|s: Seq<char>| #[trigger]
            ragged_first(row_items(rows@), s) && e.is_io(ragged_text(s)),
{
    let mut groups: StringMap<SpaceRows> = StringMap::new();
    let ghost items = row_items(rows@);
    let mut i: usize = 0;
    proof {
        assert(items.subrange(0, 0) =~= Seq::empty());
    }
    while i < rows.len()
        invariant
            i <= rows@.len(),
            items == row_items(rows@),
            by_space(items.subrange(0, i as int), groups@),
        decreases rows.len() - i,
    {
        add_vectors(
            &mut groups,
            rows[i].id,
            &rows[i].embeddings,
            Ghost(items.subrange(0, i as int)),
        );
        proof {
            assert(items.subrange(0, i + 1) =~= items.subrange(0, i as int).push(items[i as int]));
        }
        i = i + 1;
    }
    proof {
        assert(items.subrange(0, items.len() as int) =~= items);
    }
    let n: usize = groups.len();
    let mut k: usize = 0;
    while k < n
        invariant
            n == groups.pairs().len(),
            k <= n,
            items == row_items(rows@),
            by_space(items, groups@),
            groups@ == pairs_map(groups.pairs()),
            distinct_keys(groups.pairs()),
            forall|a: int, b: int|
                0 <= a < b < groups.pairs().len() ==> crate::order::text_lt(
                    (#[trigger] groups.pairs()[a]).0,
                    (#[trigger] groups.pairs()[b]).0,
                ),
            forall|j: int| 0 <= j < k ==> even_dims((#[trigger] groups.pairs()[j]).1),
        decreases n - k,
    {
        let rows_here = groups.value_at(k);
        if !has_even_dims(rows_here) {
            let space = groups.key_at(k);
            proof {
                let s = space@;
                assert(groups@.contains_key(s));
                assert forall|t: Seq<char>|
                    crate::order::text_lt(t, s) && #[trigger] vectors_in(items, t).len() > 0 implies
                    even_dims(vectors_in(items, t)) by {
                    assert(groups@.contains_key(t));
                    let j = choose|j: int|
                        0 <= j < groups.pairs().len() && (#[trigger] groups.pairs()[j]).0 == t;
                    crate::assoc::lemma_pairs_at(groups.pairs(), j);
                    if j >= k {
                        crate::order::lemma_text_order(s, t, s);
                        if j > k {
                            assert(crate::order::text_lt(
                                groups.pairs()[k as int].0,
                                groups.pairs()[j].0,
                            ));
                        }
                    }
                    assert(even_dims(groups.pairs()[j].1));
                }
                assert(ragged_first(items, s));
            }
            let mut text = own("ragged dims in space '");
            text.append(space.as_str());
            text.append("'");
            let e = io_error("segment v3 encode: ", text.as_str());
            proof {
                assert(e.is_io(ragged_text(space@)));
            }
            return Err(e);
        }
        k = k + 1;
    }
    proof {
        assert forall|s: Seq<char>| #[trigger] groups@.contains_key(s) implies even_dims(
            groups@[s],
        ) by {
            let j = choose|j: int|
                0 <= j < groups.pairs().len() && (#[trigger] groups.pairs()[j]).0 == s;
            crate::assoc::lemma_pairs_at(groups.pairs(), j);
        }
    }
    Ok(groups)
}

/// The space is the first, in dictionary order, whose vectors differ in the
/// number of components.
pub open spec fn ragged_first(
    items: Seq<(u64, Map<Seq<char>, Seq<u32>>)>,
    space: Seq<char>,
) -> bool {
    &&& !even_dims(vectors_in(items, space))
    &&& forall|t: Seq<char>|
        crate::order::text_lt(t, space) && #[trigger] vectors_in(items, t).len() > 0 ==> even_dims(
            vectors_in(items, t),
        )
}

/// The text of the error for a space whose vectors differ in the number of
/// components.
pub open spec fn ragged_text(space: Seq<char>) -> Seq<char> {
    "segment v3 encode: "@ + ("ragged dims in space '"@ + space + "'"@)
}

fn has_even_dims(rows: &SpaceRows) -> (r: bool)
    ensures
        r == even_dims(rows@),
{
    if rows.rows.len() == 0 {
        return true;
    }
    let dims: usize = rows.rows[0].1.len();
    let mut i: usize = 0;
    while i < rows.rows.len()
        invariant
            i <= rows.rows@.len(),
            0 < rows.rows@.len(),
            dims == dims_of(rows@),
            forall|j: int| 0 <= j < i ==> (#[trigger] rows@[j]).1.len() == dims,
        decreases rows.rows.len() - i,
    {
        if rows.rows[i].1.len() != dims {
            proof {
                assert(rows@[i as int].1.len() != dims);
            }
            return false;
        }
        i = i + 1;
    }
    true
}

fn push_vector(buf: &mut Vec<u8>, v: &Vec<u32>)
    ensures
        final(buf)@ == old(buf)@ + vector_bytes(v@),
{
    let ghost start = buf@;
    let mut i: usize = 0;
    proof {
        assert(v@.subrange(0, 0) =~= Seq::empty());
        assert(start + vector_bytes(Seq::empty()) =~= start);
    }
    while i < v.len()
        invariant
            i <= v@.len(),
            buf@ == start + vector_bytes(v@.subrange(0, i as int)),
        decreases v.len() - i,
    {
        push_u32(buf, v[i]);
        proof {
            let longer = v@.subrange(0, i + 1);
            assert(longer.drop_last() =~= v@.subrange(0, i as int));
            assert(longer.last() == v@[i as int]);
            assert(buf@ =~= start + vector_bytes(longer));
        }
        i = i + 1;
    }
    proof {
        assert(v@.subrange(0, v@.len() as int) =~= v@);
    }
}

fn flat_bytes(rows: &SpaceRows) -> (r: Vec<u8>)
    ensures
        r@ == flat_section(rows@),
{
    let n: usize = rows.rows.len();
    let dims: usize = if n == 0 {
        0
    } else {
        rows.rows[0].1.len()
    };
    let mut buf: Vec<u8> = Vec::new();
    push_u32(&mut buf, (dims as u64 % 0x1_0000_0000) as u32);
    push_u64(&mut buf, n as u64);
    let ghost head = buf@;
    let mut i: usize = 0;
    proof {
        assert(rows@.subrange(0, 0) =~= Seq::empty());
        assert(head + vector_rows(Seq::empty()) =~= head);
    }
    while i < n
        invariant
            n == rows.rows@.len(),
            i <= n,
            buf@ == head + vector_rows(rows@.subrange(0, i as int)),
        decreases n - i,
    {
        push_u64(&mut buf, rows.rows[i].0);
        push_vector(&mut buf, &rows.rows[i].1);
        proof {
            let longer = rows@.subrange(0, i + 1);
            assert(longer.drop_last() =~= rows@.subrange(0, i as int));
            assert(longer.last() == rows@[i as int]);
            assert(buf@ =~= head + vector_rows(longer));
        }
        i = i + 1;
    }
    proof {
        assert(rows@.subrange(0, n as int) =~= rows@);
        assert(head =~= le32((dims_of(rows@) % 0x1_0000_0000) as u32) + le64(rows@.len() as u64));
    }
    buf
}

pub(crate) fn bytes_of_ids(ids: &Vec<u64>) -> (r: Vec<u8>)
    ensures
        r@ == id_bytes(ids@),
{
    let mut buf: Vec<u8> = Vec::new();
    let mut i: usize = 0;
    proof {
        assert(ids@.subrange(0, 0) =~= Seq::empty());
    }
    while i < ids.len()
        invariant
            i <= ids@.len(),
            buf@ == id_bytes(ids@.subrange(0, i as int)),
        decreases ids.len() - i,
    {
        push_u64(&mut buf, ids[i]);
        proof {
            let longer = ids@.subrange(0, i + 1);
            assert(longer.drop_last() =~= ids@.subrange(0, i as int));
            assert(longer.last() == ids@[i as int]);
        }
        i = i + 1;
    }
    proof {
        assert(ids@.subrange(0, ids@.len() as int) =~= ids@);
    }
    buf
}

pub(crate) fn row_sections(rows: &Vec<SegmentRow>) -> (r: (Vec<u8>, Vec<u8>))
    ensures
        r.0@ == joined_rows(rows@),
        r.1@ == index_section(rows@),
{
    let n: usize = rows.len();
    let mut meta: Vec<u8> = Vec::new();
    let mut index: Vec<u8> = Vec::new();
    push_u64(&mut index, n as u64);
    let ghost head = index@;
    let mut i: usize = 0;
    proof {
        assert(head =~= le64(n as u64));
        assert(rows@.subrange(0, 0) =~= Seq::empty());
        assert(head + index_entries(Seq::empty()) =~= head);
    }
    while i < n
        invariant
            n == rows@.len(),
            i <= n,
            meta@ == joined_rows(rows@.subrange(0, i as int)),
            index@ == head + index_entries(rows@.subrange(0, i as int)),
        decreases n - i,
    {
        let row = &rows[i];
        push_u64(&mut index, row.id);
        push_u64(&mut index, meta.len() as u64);
        push_u32(&mut index, (row.row.len() as u64 % 0x1_0000_0000) as u32);
        push_bytes(&mut meta, row.row.as_slice());
        proof {
            let longer = rows@.subrange(0, i + 1);
            assert(longer.drop_last() =~= rows@.subrange(0, i as int));
            assert(longer.last() == rows@[i as int]);
            assert(index@ =~= head + index_entries(longer));
        }
        i = i + 1;
    }
    proof {
        assert(rows@.subrange(0, n as int) =~= rows@);
    }
    (meta, index)
}

fn prefixed(prefix: &str, name: &str) -> (r: String)
    ensures
        r@ == prefix@ + name@,
{
    let mut s = own(prefix);
    s.append(name);
    s
}

pub(crate) fn push_space_sections(
    sections: &mut Vec<(String, Vec<u8>)>,
    spaces: &StringMap<SpaceRows>,
    clusters: &StringMap<ClusterSections>,
)
    ensures
        sections_view(final(sections)@) == sections_view(old(sections)@) + all_space_sections(
            spaces.pairs(),
            clusters@,
        ),
        spaces@ == pairs_map(spaces.pairs()),
{
    let ghost start = sections_view(sections@);
    let n: usize = spaces.len();
    let mut i: usize = 0;
    proof {
        assert(spaces.pairs().subrange(0, 0) =~= Seq::empty());
        assert(start + all_space_sections(Seq::empty(), clusters@) =~= start);
    }
    while i < n
        invariant
            n == spaces.pairs().len(),
            i <= n,
            sections_view(sections@) == start + all_space_sections(
                spaces.pairs().subrange(0, i as int),
                clusters@,
            ),
        decreases n - i,
    {
        let space = spaces.key_at(i);
        let rows = spaces.value_at(i);
        let ghost before = sections_view(sections@);
        match clusters.get(space.as_str()) {
            Some(c) => {
                let mut cent: Vec<u8> = Vec::new();
                push_bytes(&mut cent, c.cent.as_slice());
                let mut clu: Vec<u8> = Vec::new();
                push_bytes(&mut clu, c.clu.as_slice());
                sections.push((prefixed("cent:", space.as_str()), cent));
                sections.push((prefixed("clu:", space.as_str()), clu));
            },
            None => {
                sections.push((prefixed("emb:", space.as_str()), flat_bytes(rows)));
            },
        }
        proof {
            let longer = spaces.pairs().subrange(0, i + 1);
            assert(longer.drop_last() =~= spaces.pairs().subrange(0, i as int));
            assert(longer.last() == spaces.pairs()[i as int]);
            assert(sections_view(sections@) =~= before + space_sections(space@, rows@, clusters@));
            assert(sections_view(sections@) =~= start + all_space_sections(longer, clusters@));
        }
        i = i + 1;
    }
    proof {
        assert(spaces.pairs().subrange(0, n as int) =~= spaces.pairs());
    }
}

pub(crate) fn list_contents(sections: &Vec<(String, Vec<u8>)>) -> (r: Vec<(String, u64)>)
    ensures
        toc_view(r@) == toc_of(sections_view(sections@)),
{
    let mut toc: Vec<(String, u64)> = Vec::new();
    let mut i: usize = 0;
    while i < sections.len()
        invariant
            i <= sections@.len(),
            toc@.len() == i,
            forall|k: int|
                0 <= k < i ==> (#[trigger] toc@[k]).0@ == sections@[k].0@ && toc@[k].1
                    == sections@[k].1@.len() as u64,
        decreases sections.len() - i,
    {
        toc.push((sections[i].0.clone(), sections[i].1.len() as u64));
        i = i + 1;
    }
    proof {
        assert(toc_view(toc@) =~= toc_of(sections_view(sections@)));
    }
    toc
}

pub(crate) fn assemble(max_id: u64, toc: &Vec<u8>, sections: &Vec<(String, Vec<u8>)>) -> (r: Vec<u8>)
    ensures
        r@ == file_bytes(max_id, toc@, sections_view(sections@)),
{
    let mut out: Vec<u8> = vec![0x43, 0x53, 0x45, 0x47, 0x30, 0x30, 0x30, 0x33];
    proof {
        assert(out@ =~= magic_v3());
    }
    push_u64(&mut out, max_id);
    push_u32(&mut out, (toc.len() as u64 % 0x1_0000_0000) as u32);
    push_bytes(&mut out, toc.as_slice());
    let ghost head = out@;
    let ghost all = sections_view(sections@);
    let mut i: usize = 0;
    proof {
        assert(all.subrange(0, 0) =~= Seq::empty());
        assert(head + joined_bodies(Seq::empty()) =~= head);
    }
    while i < sections.len()
        invariant
            i <= sections@.len(),
            all == sections_view(sections@),
            out@ == head + joined_bodies(all.subrange(0, i as int)),
        decreases sections.len() - i,
    {
        push_bytes(&mut out, sections[i].1.as_slice());
        proof {
            let longer = all.subrange(0, i + 1);
            assert(longer.drop_last() =~= all.subrange(0, i as int));
            assert(longer.last() == all[i as int]);
            assert(out@ =~= head + joined_bodies(longer));
        }
        i = i + 1;
    }
    proof {
        assert(all.subrange(0, all.len() as int) =~= all);
    }
    out
}

// ── Decoding ────────────────────────────────────────────────────────────

/// One section of a segment file.
#[derive(Debug)]
pub enum Section {
    /// The chunks as one JSON list.
    Meta(Vec<u8>),
    /// The chunks as JSON rows.
    Rows(Vec<u8>),
    /// The centroids of a clustered space.
    Centroids { space: String, body: Vec<u8> },
    /// The clustered vectors of a space whose centroids came before.
    Clusters { space: String, body: Vec<u8> },
    /// The vectors of a space.
    Embeddings { space: String, rows: SpaceRows },
    /// The edges as JSON.
    Relations(Vec<u8>),
    Tombstones(Vec<u64>),
    RelationTombstones(Vec<String>),
    /// The row index, or a section of a later layout.
    Skipped,
}

/// What a section says.
#[verifier::ext_equal]
pub enum SectionView {
    Meta(Seq<u8>),
    Rows(Seq<u8>),
    Centroids { space: Seq<char>, body: Seq<u8> },
    Clusters { space: Seq<char>, body: Seq<u8> },
    Embeddings { space: Seq<char>, rows: Seq<(u64, Seq<u32>)> },
    Relations(Seq<u8>),
    Tombstones(Seq<u64>),
    RelationTombstones(Seq<Seq<char>>),
    Skipped,
}

impl View for Section {
    type V = SectionView;

    open spec fn view(&self) -> SectionView {
        match self {
            Section::Meta(b) => SectionView::Meta(b@),
            Section::Rows(b) => SectionView::Rows(b@),
            Section::Centroids { space, body } => SectionView::Centroids {
                space: space@,
                body: body@,
            },
            Section::Clusters { space, body } => SectionView::Clusters {
                space: space@,
                body: body@,
            },
            Section::Embeddings { space, rows } => SectionView::Embeddings {
                space: space@,
                rows: rows@,
            },
            Section::Relations(b) => SectionView::Relations(b@),
            Section::Tombstones(ids) => SectionView::Tombstones(ids@),
            Section::RelationTombstones(ids) => SectionView::RelationTombstones(text_views(ids@)),
            Section::Skipped => SectionView::Skipped,
        }
    }
}

/// What each section of a list says.
pub open spec fn section_views(s: Seq<Section>) -> Seq<SectionView> {
    Seq::new(s.len(), |i: int| s[i]@)
}

/// The size of a vector with its id, for vectors of `dims` components.
pub open spec fn row_size(dims: int) -> int {
    8 + dims * 4
}

/// The vector with its id that stands at `off`.
pub open spec fn vector_at(body: Seq<u8>, off: int, dims: int) -> (u64, Seq<u32>) {
    (u64_at(body, off), Seq::new(dims as nat, |d: int| u32_at(body, off + 8 + d * 4)))
}

/// The vectors of a flat section, unless it breaks off.
pub open spec fn flat_rows(body: Seq<u8>) -> Option<Seq<(u64, Seq<u32>)>> {
    if body.len() < 12 {
        None
    } else {
        let dims = u32_at(body, 0) as int;
        let n = u64_at(body, 4) as int;
        if 12 + n * row_size(dims) > body.len() {
            None
        } else {
            Some(Seq::new(n as nat, |i: int| vector_at(body, 12 + i * row_size(dims), dims)))
        }
    }
}

/// The ids of an id array; bytes after the last whole id are ignored.
pub open spec fn ids_in(body: Seq<u8>) -> Seq<u64> {
    Seq::new(body.len() / 8, |i: int| u64_at(body, 8 * i))
}

/// What follows a prefix.
pub open spec fn after_prefix(name: Seq<char>, n: int) -> Seq<char> {
    name.subrange(n, name.len() as int)
}

/// What a section is, by its name; `seen` holds the names of the centroid
/// sections before it. Sections of other names are skipped.
pub open spec fn section_of(name: Seq<char>, body: Seq<u8>, seen: Set<Seq<char>>) -> Result<
    SectionView,
    Seq<char>,
> {
    if name == "meta"@ {
        Ok(SectionView::Meta(body))
    } else if name == "meta2"@ {
        Ok(SectionView::Rows(body))
    } else if name == "metaidx"@ {
        Ok(SectionView::Skipped)
    } else if starts_with_text(name, "cent:"@) {
        Ok(SectionView::Centroids { space: after_prefix(name, 5), body })
    } else if starts_with_text(name, "clu:"@) {
        if seen.contains("cent:"@ + after_prefix(name, 4)) {
            Ok(SectionView::Clusters { space: after_prefix(name, 4), body })
        } else {
            Err("clu:"@ + after_prefix(name, 4) + " without preceding cent section"@)
        }
    } else if starts_with_text(name, "emb:"@) {
        match flat_rows(body) {
            Some(rows) => Ok(SectionView::Embeddings { space: after_prefix(name, 4), rows }),
            None => Err("truncated"@),
        }
    } else if name == "rels"@ {
        Ok(SectionView::Relations(body))
    } else if name == "tombs"@ {
        Ok(SectionView::Tombstones(ids_in(body)))
    } else if name == "rtombs"@ {
        match texts_of_json(body) {
            Ok(ids) => Ok(SectionView::RelationTombstones(ids)),
            Err(e) => Err(e),
        }
    } else {
        Ok(SectionView::Skipped)
    }
}

/// The names of the centroid sections so far.
pub open spec fn noted(seen: Set<Seq<char>>, name: Seq<char>) -> Set<Seq<char>> {
    if starts_with_text(name, "cent:"@) {
        seen.insert(name)
    } else {
        seen
    }
}

/// The sections read so far, the centroid sections among them, and the position
/// after them.
#[verifier::ext_equal]
pub struct ReadView {
    pub out: Seq<SectionView>,
    pub seen: Set<Seq<char>>,
    pub pos: int,
}

/// Nothing read yet.
pub open spec fn reading_from(pos: int) -> ReadView {
    ReadView { out: Seq::empty(), seen: Set::empty(), pos }
}

/// Reads the sections that a table of contents lists, from `start` on.
pub open spec fn read_toc(b: Seq<u8>, toc: Seq<(Seq<char>, u64)>, start: int) -> Result<
    ReadView,
    Seq<char>,
>
    decreases toc.len(),
{
    if toc.len() == 0 {
        Ok(reading_from(start))
    } else {
        match read_toc(b, toc.drop_last(), start) {
            Err(e) => Err(e),
            Ok(s) => {
                let (name, len) = toc.last();
                if s.pos + len > b.len() {
                    Err("truncated"@)
                } else {
                    match section_of(name, b.subrange(s.pos, s.pos + len), s.seen) {
                        Err(e) => Err(e),
                        Ok(v) => Ok(
                            ReadView {
                                out: s.out.push(v),
                                seen: noted(s.seen, name),
                                pos: s.pos + len,
                            },
                        ),
                    }
                }
            },
        }
    }
}

/// What a segment file holds: the id high-water mark and its sections.
pub open spec fn decoded(b: Seq<u8>) -> Result<(u64, Seq<SectionView>), Seq<char>> {
    if b.len() < 20 {
        Err("truncated"@)
    } else {
        let toc_len = u32_at(b, 16) as int;
        if 20 + toc_len > b.len() {
            Err("truncated"@)
        } else {
            match toc_of_json(b.subrange(20, 20 + toc_len)) {
                Err(e) => Err(e),
                Ok(toc) => match read_toc(b, toc, 20 + toc_len) {
                    Err(e) => Err(e),
                    Ok(s) => Ok((u64_at(b, 8), s.out)),
                },
            }
        }
    }
}

/// An error of the decoder.
pub open spec fn decode_text(text: Seq<char>) -> Seq<char> {
    "segment v2 decode: "@ + text
}

fn decode_error(text: &str) -> (r: StorageError)
    ensures
        r.is_io(decode_text(text@)),
{
    io_error("segment v2 decode: ", text)
}

fn read_flat(body: &[u8]) -> (r: Option<SpaceRows>)
    ensures
        r is Some <==> flat_rows(body@) is Some,
        r matches Some(rows) ==> flat_rows(body@) == Some(rows@),
{
    let len: usize = body.len();
    if len < 12 {
        return None;
    }
    let dims: u64 = read_u32(body, 0) as u64;
    let n: u64 = read_u64(body, 4);
    let size: u64 = 8 + dims * 4;
    proof {
        assert(n * size <= 0xffff_ffff_ffff_ffff * 0x4_0000_0008) by (nonlinear_arith)
            requires
                n <= 0xffff_ffff_ffff_ffff,
                size <= 0x4_0000_0008,
        ;
    }
    let total: u128 = 12u128 + (n as u128) * (size as u128);
    if total > len as u128 {
        return None;
    }
    let mut rows: Vec<(u64, Vec<u32>)> = Vec::new();
    let mut i: u64 = 0;
    let mut off: usize = 12;
    proof {
        assert(0 * size == 0) by (nonlinear_arith);
    }
    while i < n
        invariant
            len == body@.len(),
            size == 8 + dims * 4,
            size == row_size(dims as int),
            12 + n * size <= len,
            i <= n,
            off == 12 + i * size,
            rows@.len() == i,
            forall|k: int|
                0 <= k < i ==> ((#[trigger] rows@[k]).0, rows@[k].1@) == vector_at(
                    body@,
                    12 + k * row_size(dims as int),
                    dims as int,
                ),
        decreases n - i,
    {
        proof {
            assert((i + 1) * size == i * size + size) by (nonlinear_arith);
            assert((i + 1) * size <= n * size) by (nonlinear_arith)
                requires
                    i + 1 <= n,
            ;
        }
        let id: u64 = read_u64(body, off);
        let mut v: Vec<u32> = Vec::new();
        let mut d: u64 = 0;
        let mut o: usize = off + 8;
        while d < dims
            invariant
                len == body@.len(),
                d <= dims,
                off + 8 + dims * 4 <= len,
                o == off + 8 + d * 4,
                v@.len() == d,
                forall|k: int|
                    0 <= k < d ==> #[trigger] v@[k] == u32_at(body@, off + 8 + k * 4),
            decreases dims - d,
        {
            v.push(read_u32(body, o));
            o = o + 4;
            d = d + 1;
        }
        proof {
            assert(v@ =~= vector_at(body@, off as int, dims as int).1);
        }
        rows.push((id, v));
        off = off + size as usize;
        i = i + 1;
    }
    let out = SpaceRows { rows };
    proof {
        assert(flat_rows(body@) is Some);
        assert(out@ =~= flat_rows(body@)->0);
    }
    Some(out)
}

fn read_ids(body: &[u8]) -> (r: Vec<u64>)
    ensures
        r@ == ids_in(body@),
{
    let len: usize = body.len();
    let mut out: Vec<u64> = Vec::new();
    let mut pos: usize = 0;
    while len - pos >= 8
        invariant
            len == body@.len(),
            pos <= len,
            pos == 8 * out@.len(),
            forall|k: int| 0 <= k < out@.len() ==> #[trigger] out@[k] == u64_at(body@, 8 * k),
        decreases len - pos,
    {
        out.push(read_u64(body, pos));
        pos = pos + 8;
    }
    proof {
        assert(out@ =~= ids_in(body@));
    }
    out
}

fn copy_bytes(b: &[u8]) -> (r: Vec<u8>)
    ensures
        r@ == b@,
{
    let mut out: Vec<u8> = Vec::new();
    push_bytes(&mut out, b);
    out
}

fn read_section(name: &str, body: &[u8], seen: &StringMap<()>) -> (r: Result<Section, StorageError>)
    ensures
        r is Ok <==> section_of(name@, body@, seen@.dom()) is Ok,
        r matches Ok(s) ==> section_of(name@, body@, seen@.dom())->Ok_0 == s@,
        r matches Err(e) ==> e.is_io(decode_text(section_of(name@, body@, seen@.dom())->Err_0)),
{
    proof {
        reveal_strlit("cent:");
        reveal_strlit("clu:");
        reveal_strlit("emb:");
    }
    if text_eq(name, "meta") {
        return Ok(Section::Meta(copy_bytes(body)));
    }
    if text_eq(name, "meta2") {
        return Ok(Section::Rows(copy_bytes(body)));
    }
    if text_eq(name, "metaidx") {
        return Ok(Section::Skipped);
    }
    if let Some(space) = strip_text_prefix(name, "cent:") {
        return Ok(Section::Centroids { space: own(space), body: copy_bytes(body) });
    }
    if let Some(space) = strip_text_prefix(name, "clu:") {
        let key = prefixed("cent:", space);
        if seen.contains_key(key.as_str()) {
            return Ok(Section::Clusters { space: own(space), body: copy_bytes(body) });
        }
        let mut text = prefixed("clu:", space);
        text.append(" without preceding cent section");
        return Err(decode_error(text.as_str()));
    }
    if let Some(space) = strip_text_prefix(name, "emb:") {
        return match read_flat(body) {
            Some(rows) => Ok(Section::Embeddings { space: own(space), rows }),
            None => Err(decode_error("truncated")),
        };
    }
    if text_eq(name, "rels") {
        return Ok(Section::Relations(copy_bytes(body)));
    }
    if text_eq(name, "tombs") {
        return Ok(Section::Tombstones(read_ids(body)));
    }
    if text_eq(name, "rtombs") {
        return match texts_from_json(body) {
            Ok(ids) => Ok(Section::RelationTombstones(ids)),
            Err(e) => Err(decode_error(e.as_str())),
        };
    }
    Ok(Section::Skipped)
}

proof fn lemma_read_error_stays(b: Seq<u8>, toc: Seq<(Seq<char>, u64)>, start: int, k: int)
    requires
        0 <= k <= toc.len(),
        read_toc(b, toc.subrange(0, k), start) is Err,
    ensures
        read_toc(b, toc, start) == read_toc(b, toc.subrange(0, k), start),
    decreases toc.len(),
{
    if k == toc.len() {
        assert(toc.subrange(0, k) =~= toc);
    } else {
        assert(toc.drop_last().subrange(0, k) =~= toc.subrange(0, k));
        lemma_read_error_stays(b, toc.drop_last(), start, k);
    }
}

/// Reads a segment file of either layout: the id high-water mark and its
/// sections in order.
pub fn decode_segment_v2(bytes: &[u8]) -> (r: Result<(u64, Vec<Section>), StorageError>)
    ensures
        r is Ok <==> decoded(bytes@) is Ok,
        r matches Ok(d) ==> decoded(bytes@)->Ok_0 == (d.0, section_views(d.1@)),
        r matches Err(e) ==> e.is_io(decode_text(decoded(bytes@)->Err_0)),
{
    let len: usize = bytes.len();
    if len < 20 {
        return Err(decode_error("truncated"));
    }
    let max_id: u64 = read_u64(bytes, 8);
    let toc_len: usize = read_u32(bytes, 16) as usize;
    if toc_len > len - 20 {
        return Err(decode_error("truncated"));
    }
    let start: usize = 20 + toc_len;
    let toc = match toc_from_json(slice_subrange(bytes, 20, start)) {
        Ok(toc) => toc,
        Err(e) => {
            return Err(decode_error(e.as_str()));
        },
    };
    let ghost all = toc_view(toc@);
    let mut out: Vec<Section> = Vec::new();
    let mut seen: StringMap<()> = StringMap::new();
    let mut pos: usize = start;
    let mut i: usize = 0;
    proof {
        assert(all.subrange(0, 0) =~= Seq::empty());
        assert(section_views(out@) =~= Seq::empty());
        assert(seen@.dom() =~= Set::empty());
    }
    while i < toc.len()
        invariant
            len == bytes@.len(),
            all == toc_view(toc@),
            i <= toc@.len(),
            pos <= len,
            20 <= len,
            start == 20 + u32_at(bytes@, 16),
            start <= len,
            toc_of_json(bytes@.subrange(20, start as int)) == Ok::<
                Seq<(Seq<char>, u64)>,
                Seq<char>,
            >(all),
            read_toc(bytes@, all.subrange(0, i as int), start as int) == Ok::<ReadView, Seq<char>>(
                ReadView { out: section_views(out@), seen: seen@.dom(), pos: pos as int },
            ),
        decreases toc.len() - i,
    {
        let ghost longer = all.subrange(0, i + 1);
        proof {
            assert(longer.drop_last() =~= all.subrange(0, i as int));
            assert(longer.last() == all[i as int]);
        }
        let size: u64 = toc[i].1;
        if size > (len - pos) as u64 {
            proof {
                lemma_read_error_stays(bytes@, all, start as int, i + 1);
            }
            return Err(decode_error("truncated"));
        }
        let end: usize = pos + size as usize;
        let name = toc[i].0.as_str();
        match read_section(name, slice_subrange(bytes, pos, end), &seen) {
            Ok(s) => {
                let ghost before = section_views(out@);
                out.push(s);
                proof {
                    assert(section_views(out@) =~= before.push(s@));
                }
            },
            Err(e) => {
                proof {
                    lemma_read_error_stays(bytes@, all, start as int, i + 1);
                }
                return Err(e);
            },
        }
        if strip_text_prefix(name, "cent:").is_some() {
            seen.insert(own(name), ());
        }
        pos = end;
        i = i + 1;
    }
    proof {
        assert(all.subrange(0, all.len() as int) =~= all);
    }
    Ok((max_id, out))
}

/// How the bytes of a segment are laid out.
#[derive(Debug, Clone, Copy, PartialEq, Eq, Structural)]
pub enum SegmentFormat {
    /// A segment file with sections.
    Binary,
    /// JSON, of one of two older forms.
    Json,
}

/// The bytes begin with the magic of a segment file.
pub open spec fn is_segment_file(b: Seq<u8>) -> bool {
    b.len() >= 8 && (b.subrange(0, 8) == magic_v2() || b.subrange(0, 8) == magic_v3())
}

/// How the bytes of a segment are laid out.
pub fn segment_format(bytes: &[u8]) -> (r: SegmentFormat)
    ensures
        r == (if is_segment_file(bytes@) {
            SegmentFormat::Binary
        } else {
            SegmentFormat::Json
        }),
{
    if bytes.len() < 8 {
        return SegmentFormat::Json;
    }
    let common = bytes[0] == 0x43 && bytes[1] == 0x53 && bytes[2] == 0x45 && bytes[3] == 0x47
        && bytes[4] == 0x30 && bytes[5] == 0x30 && bytes[6] == 0x30;
    let last: u8 = bytes[7];
    proof {
        let head = bytes@.subrange(0, 8);
        if common && last == 0x32 {
            assert(head =~= magic_v2());
        }
        if common && last == 0x33 {
            assert(head =~= magic_v3());
        }
        if head == magic_v2() {
            assert(head[0] == 0x43 && head[1] == 0x53 && head[2] == 0x45 && head[3] == 0x47
                && head[4] == 0x30 && head[5] == 0x30 && head[6] == 0x30 && head[7] == 0x32);
        }
        if head == magic_v3() {
            assert(head[0] == 0x43 && head[1] == 0x53 && head[2] == 0x45 && head[3] == 0x47
                && head[4] == 0x30 && head[5] == 0x30 && head[6] == 0x30 && head[7] == 0x33);
        }
    }
    if common && (last == 0x32 || last == 0x33) {
        SegmentFormat::Binary
    } else {
        SegmentFormat::Json
    }
}

} // verus!
