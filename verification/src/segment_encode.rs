//! Writing segment files, and what reading them back gives.
use crate::assoc::pairs_map;
use crate::duplicate::text_views;
use crate::json::{reads_as_texts, reads_as_toc, texts_json, texts_to_json, toc_json, toc_to_json};
use crate::le::{le32, le64, lemma_le32, lemma_le64, u32_at, u64_at};
use crate::segment::{
    after_prefix, all_space_sections, assemble, bytes_of_ids, decoded, dims_of, even_dims,
    file_bytes, flat_rows, flat_section, id_bytes, ids_in, index_entries, index_section,
    is_segment_file, joined_bodies, joined_rows, list_contents, magic_v3, noted, order_rows,
    push_space_sections, ragged_first, ragged_text, ranked_rows, read_toc, row_items, row_sections, row_size, rows_in_order, section_of,
    sections_view, segment_sections, segment_spaces, toc_of, vector_at, vector_bytes, vector_rows,
    ClusterSections, ReadView, SectionView, SegmentParts, SegmentRow,
};
use crate::storage_error::{io_error, StorageError};
use crate::string_map::StringMap;
use crate::text::{own, starts_with_text};
use crate::vectors::by_space;
use vstd::prelude::*;

verus! {

/// The sections that reading a segment gives.
pub open spec fn read_sections(
    parts: SegmentParts,
    rows: Seq<SegmentRow>,
    spaces: Seq<(Seq<char>, Seq<(u64, Seq<u32>)>)>,
    clusters: Map<Seq<char>, (Seq<u8>, Seq<u8>)>,
) -> Seq<SectionView> {
    seq![SectionView::Rows(joined_rows(rows)), SectionView::Skipped] + read_spaces(spaces, clusters)
        + seq![
        SectionView::Relations(parts.relations@),
        SectionView::Tombstones(parts.tombstones@),
        SectionView::RelationTombstones(text_views(parts.relation_tombstones@)),
    ]
}

/// The sections that reading the spaces of a segment gives.
pub open spec fn read_spaces(
    spaces: Seq<(Seq<char>, Seq<(u64, Seq<u32>)>)>,
    clusters: Map<Seq<char>, (Seq<u8>, Seq<u8>)>,
) -> Seq<SectionView>
    decreases spaces.len(),
{
    if spaces.len() == 0 {
        Seq::empty()
    } else {
        let (space, rows) = spaces.last();
        read_spaces(spaces.drop_last(), clusters) + if clusters.contains_key(space) {
            seq![
                SectionView::Centroids { space, body: clusters[space].0 },
                SectionView::Clusters { space, body: clusters[space].1 },
            ]
        } else {
            seq![SectionView::Embeddings { space, rows }]
        }
    }
}

/// The bytes are the segment file of the parts: for the rows in order of the
/// ids and the spaces in dictionary order, header, table of contents and
/// sections.
pub open spec fn is_file_of(
    parts: SegmentParts,
    clusters: Map<Seq<char>, (Seq<u8>, Seq<u8>)>,
    rows: Seq<SegmentRow>,
    spaces: Seq<(Seq<char>, Seq<(u64, Seq<u32>)>)>,
    rtombs: Seq<u8>,
    toc: Seq<u8>,
    b: Seq<u8>,
) -> bool {
    let sections = segment_sections(parts, rows, spaces, clusters, rtombs);
    &&& rows_in_order(parts.rows@, rows)
    &&& by_space(row_items(rows), pairs_map(spaces))
    &&& in_order_and_even(spaces)
    &&& texts_json(text_views(parts.relation_tombstones@)) == Ok::<Seq<u8>, Seq<char>>(rtombs)
    &&& reads_as_texts(rtombs, text_views(parts.relation_tombstones@))
    &&& toc_json(toc_of(sections)) == Ok::<Seq<u8>, Seq<char>>(toc)
    &&& reads_as_toc(toc, toc_of(sections))
    &&& forall|i: int| 0 <= i < sections.len() ==> (#[trigger] sections[i]).1.len() <= u64::MAX
    &&& forall|i: int| 0 <= i < spaces.len() ==> (#[trigger] spaces[i]).1.len() <= u64::MAX
    &&& b == file_bytes(parts.max_id, toc, sections)
}

/// The 32-bit fields of a segment file can hold its table of contents and its
/// dimensions.
pub open spec fn fields_suffice(
    toc: Seq<u8>,
    spaces: Seq<(Seq<char>, Seq<(u64, Seq<u32>)>)>,
    clusters: Map<Seq<char>, (Seq<u8>, Seq<u8>)>,
) -> bool {
    &&& toc.len() < 0x1_0000_0000
    &&& forall|i: int|
        0 <= i < spaces.len() && !clusters.contains_key((#[trigger] spaces[i]).0) ==> dims_of(
            spaces[i].1,
        ) < 0x1_0000_0000
}

/// The bytes are the segment file of the parts, and read back as what was
/// written. A file that breaks off does not read at all.
pub open spec fn written(
    parts: SegmentParts,
    clusters: Map<Seq<char>, (Seq<u8>, Seq<u8>)>,
    b: Seq<u8>,
) -> bool {
    exists|
        rows: Seq<SegmentRow>,
        spaces: Seq<(Seq<char>, Seq<(u64, Seq<u32>)>)>,
        rtombs: Seq<u8>,
        toc: Seq<u8>,
    | #[trigger]
        is_file_of(parts, clusters, rows, spaces, rtombs, toc, b) && (fields_suffice(
            toc,
            spaces,
            clusters,
        ) ==> reads_as(b, parts.max_id, read_sections(parts, rows, spaces, clusters))
            && no_prefix_reads(b))
}

/// The error names the first space, in dictionary order, whose vectors differ in the
/// number of components: nothing else stands in the way of writing the parts.
pub open spec fn refused(parts: SegmentParts, e: StorageError) -> bool {
    exists|rows: Seq<SegmentRow>, space: Seq<char>|
        #![trigger rows_in_order(parts.rows@, rows), ragged_text(space)]
        rows_in_order(parts.rows@, rows) && ragged_first(row_items(rows), space) && e.is_io(
            ragged_text(space),
        )
}

/// The spaces stand in dictionary order, each with vectors of one dimension.
pub open spec fn in_order_and_even(spaces: Seq<(Seq<char>, Seq<(u64, Seq<u32>)>)>) -> bool {
    &&& forall|i: int, j: int|
        0 <= i < j < spaces.len() ==> crate::order::text_lt(
            (#[trigger] spaces[i]).0,
            (#[trigger] spaces[j]).0,
        )
    &&& forall|i: int| 0 <= i < spaces.len() ==> even_dims((#[trigger] spaces[i]).1)
}

/// Writes a segment file. `clusters` holds the sections of the spaces that are
/// stored in clusters. What was written reads back: the same high-water mark,
/// rows, vectors, edges and deletes.
pub fn encode_segment_v2(parts: SegmentParts, clusters: &StringMap<ClusterSections>) -> (r: Result<
    Vec<u8>,
    StorageError,
>)
    ensures
        outcome(parts, clusters@, r),
{
    let ghost given = parts;
    let SegmentParts { rows, relations, max_id, tombstones, relation_tombstones } = parts;
    let rows = order_rows(rows);
    let (meta, index) = row_sections(&rows);
    let spaces = match segment_spaces(&rows) {
        Ok(s) => s,
        Err(e) => {
            proof {
                let space = choose|s: Seq<char>| #[trigger]
                    ragged_first(row_items(rows@), s) && e.is_io(ragged_text(s));
                assert(rows_in_order(given.rows@, rows@));
                assert(ragged_first(row_items(rows@), space));
                assert(refused(given, e));
            }
            return Err(e);
        },
    };
    let count: usize = spaces.len();
    proof {
        let sp = spaces.pairs();
        assert forall|i: int| 0 <= i < sp.len() implies even_dims((#[trigger] sp[i]).1) by {
            crate::assoc::lemma_pairs_at(sp, i);
            assert(spaces@.contains_key(sp[i].0));
        }
        assert(in_order_and_even(sp));
        assert(by_space(row_items(rows@), pairs_map(sp)));
        assert(rows_in_order(given.rows@, rows@));
    }
    let mut sections: Vec<(String, Vec<u8>)> = Vec::with_capacity(count);
    sections.push((own("meta2"), meta));
    sections.push((own("metaidx"), index));
    proof {
        assert(sections_view(sections@) =~= seq![
            ("meta2"@, joined_rows(rows@)),
            ("metaidx"@, index_section(rows@)),
        ]);
    }
    push_space_sections(&mut sections, &spaces, clusters);
    let rtombs = match texts_to_json(&relation_tombstones) {
        Ok(b) => b,
        Err(e) => {
            return Err(io_error("segment v3 encode: ", e.as_str()));
        },
    };
    let ghost rtombs_bytes = rtombs@;
    sections.push((own("rels"), relations));
    sections.push((own("tombs"), bytes_of_ids(&tombstones)));
    sections.push((own("rtombs"), rtombs));
    let ghost secs = segment_sections(given, rows@, spaces.pairs(), clusters@, rtombs_bytes);
    proof {
        assert(sections_view(sections@) =~= secs);
    }
    let toc = list_contents(&sections);
    let toc_bytes = match toc_to_json(&toc) {
        Ok(b) => b,
        Err(e) => {
            return Err(io_error("segment v3 encode: ", e.as_str()));
        },
    };
    let out = assemble(max_id, &toc_bytes, &sections);
    proof {
        let sp = spaces.pairs();
        assert forall|i: int| 0 <= i < secs.len() implies (#[trigger] secs[i]).1.len()
            <= u64::MAX by {
            assert(sections@[i].1.len() <= usize::MAX);
            assert(secs[i].1 == sections@[i].1@);
        }
        assert forall|i: int| 0 <= i < sp.len() implies (#[trigger] sp[i]).1.len() <= u64::MAX by {
            crate::assoc::lemma_pairs_at(sp, i);
            assert(spaces@.contains_key(sp[i].0));
            lemma_vectors_len(row_items(rows@), sp[i].0);
            assert(rows@.len() == rows.len());
        }
        assert(is_file_of(given, clusters@, rows@, sp, rtombs_bytes, toc_bytes@, out@));
        if fields_suffice(toc_bytes@, sp, clusters@) {
            law_segment_reads_back(given, clusters@, rows@, sp, rtombs_bytes, toc_bytes@, out@);
            law_no_prefix_of_a_segment_reads(
                given,
                clusters@,
                rows@,
                sp,
                rtombs_bytes,
                toc_bytes@,
                out@,
            );
        }
        assert(written(parts, clusters@, out@));
    }
    Ok(out)
}

/// The outcome of writing a segment.
pub open spec fn outcome(
    parts: SegmentParts,
    clusters: Map<Seq<char>, (Seq<u8>, Seq<u8>)>,
    r: Result<Vec<u8>, StorageError>,
) -> bool {
    match r {
        Ok(b) => written(parts, clusters, b@),
        Err(e) => refused(parts, e),
    }
}

/// Writes the segment file of a whole live state: no deletes to carry.
pub fn encode_segment(
    rows: Vec<SegmentRow>,
    relations: Vec<u8>,
    max_id: u64,
    clusters: &StringMap<ClusterSections>,
) -> (r: Result<Vec<u8>, StorageError>)
    ensures
        exists|parts: SegmentParts|
            parts.rows == rows && parts.relations == relations && parts.max_id == max_id
                && parts.tombstones@.len() == 0 && parts.relation_tombstones@.len() == 0
                && #[trigger] outcome(parts, clusters@, r),
{
    let parts = SegmentParts {
        rows,
        relations,
        max_id,
        tombstones: Vec::new(),
        relation_tombstones: Vec::new(),
    };
    let ghost given = parts;
    let r = encode_segment_v2(parts, clusters);
    proof {
        assert(outcome(given, clusters@, r));
    }
    r
}

/// The bytes read as a segment with this high-water mark and these sections.
pub open spec fn reads_as(b: Seq<u8>, max_id: u64, sections: Seq<SectionView>) -> bool {
    decoded(b) == Ok::<(u64, Seq<SectionView>), Seq<char>>((max_id, sections))
}

proof fn lemma_vectors_len(items: Seq<(u64, Map<Seq<char>, Seq<u32>>)>, space: Seq<char>)
    ensures
        crate::vectors::vectors_in(items, space).len() <= items.len(),
    decreases items.len(),
{
    if items.len() > 0 {
        lemma_vectors_len(items.drop_last(), space);
    }
}

// ── Reading back ────────────────────────────────────────────────────────

/// The sections of a list, told apart one after the other.
spec fn told_apart(sections: Seq<(Seq<char>, Seq<u8>)>) -> Result<
    (Seq<SectionView>, Set<Seq<char>>),
    Seq<char>,
>
    decreases sections.len(),
{
    if sections.len() == 0 {
        Ok((Seq::empty(), Set::empty()))
    } else {
        match told_apart(sections.drop_last()) {
            Err(e) => Err(e),
            Ok((out, seen)) => match section_of(sections.last().0, sections.last().1, seen) {
                Err(e) => Err(e),
                Ok(v) => Ok((out.push(v), noted(seen, sections.last().0))),
            },
        }
    }
}

proof fn lemma_bodies_prefix(sections: Seq<(Seq<char>, Seq<u8>)>, k: int)
    requires
        0 <= k <= sections.len(),
    ensures
        joined_bodies(sections.subrange(0, k)).len() <= joined_bodies(sections).len(),
        joined_bodies(sections).subrange(0, joined_bodies(sections.subrange(0, k)).len() as int)
            == joined_bodies(sections.subrange(0, k)),
    decreases sections.len(),
{
    if k == sections.len() {
        assert(sections.subrange(0, k) =~= sections);
        assert(joined_bodies(sections).subrange(0, joined_bodies(sections).len() as int)
            =~= joined_bodies(sections));
    } else {
        let init = sections.drop_last();
        lemma_bodies_prefix(init, k);
        assert(init.subrange(0, k) =~= sections.subrange(0, k));
        let n = joined_bodies(sections.subrange(0, k)).len() as int;
        assert(joined_bodies(sections).subrange(0, n) =~= joined_bodies(init).subrange(0, n));
    }
}

proof fn lemma_read_written(
    b: Seq<u8>,
    head: Seq<u8>,
    sections: Seq<(Seq<char>, Seq<u8>)>,
    k: int,
)
    requires
        b == head + joined_bodies(sections),
        0 <= k <= sections.len(),
        forall|i: int| 0 <= i < sections.len() ==> (#[trigger] sections[i]).1.len() <= u64::MAX,
    ensures
        ({
            let part = sections.subrange(0, k);
            read_toc(b, toc_of(sections).subrange(0, k), head.len() as int) == (match told_apart(
                part,
            ) {
                Err(e) => Err::<ReadView, Seq<char>>(e),
                Ok((out, seen)) => Ok::<ReadView, Seq<char>>(
                    ReadView { out, seen, pos: head.len() + joined_bodies(part).len() as int },
                ),
            })
        }),
    decreases k,
{
    let toc = toc_of(sections);
    let part = sections.subrange(0, k);
    if k == 0 {
        assert(toc.subrange(0, 0) =~= Seq::empty());
        assert(part =~= Seq::empty());
    } else {
        let init = sections.subrange(0, k - 1);
        lemma_read_written(b, head, sections, k - 1);
        assert(part.drop_last() =~= init);
        assert(part.last() == sections[k - 1]);
        assert(toc.subrange(0, k).drop_last() =~= toc.subrange(0, k - 1));
        assert(toc.subrange(0, k).last() == toc[k - 1]);
        if let Ok((out, seen)) = told_apart(init) {
            lemma_bodies_prefix(sections, k);
            lemma_bodies_prefix(sections, k - 1);
            let body = sections[k - 1].1;
            let p = joined_bodies(init).len() as int;
            let pos = head.len() + p;
            let whole = joined_bodies(part);
            assert(whole =~= joined_bodies(init) + body);
            assert(whole.subrange(p, p + body.len()) =~= body);
            let all = joined_bodies(sections);
            assert(all.subrange(0, whole.len() as int) == whole);
            assert(all.subrange(p, p + body.len()) =~= all.subrange(0, whole.len() as int).subrange(
                p,
                p + body.len(),
            ));
            assert(b.subrange(pos, pos + body.len()) =~= all.subrange(p, p + body.len()));
        }
    }
}

proof fn lemma_vector_reads_back(v: Seq<u32>, d: int)
    requires
        0 <= d < v.len(),
    ensures
        vector_bytes(v).len() == v.len() * 4,
        vector_bytes(v).subrange(d * 4, d * 4 + 4) == le32(v[d]),
    decreases v.len(),
{
    broadcast use lemma_le32;

    let init = v.drop_last();
    lemma_vector_len(v);
    lemma_vector_len(init);
    if d == v.len() - 1 {
        assert(vector_bytes(v).subrange(d * 4, d * 4 + 4) =~= le32(v[d]));
    } else {
        lemma_vector_reads_back(init, d);
        assert(vector_bytes(v).subrange(d * 4, d * 4 + 4) =~= vector_bytes(init).subrange(
            d * 4,
            d * 4 + 4,
        ));
    }
}

proof fn lemma_vector_len(v: Seq<u32>)
    ensures
        vector_bytes(v).len() == v.len() * 4,
    decreases v.len(),
{
    broadcast use lemma_le32;

    if v.len() > 0 {
        lemma_vector_len(v.drop_last());
    }
}

proof fn lemma_rows_len(rows: Seq<(u64, Seq<u32>)>, dims: int)
    requires
        forall|i: int| 0 <= i < rows.len() ==> (#[trigger] rows[i]).1.len() == dims,
    ensures
        vector_rows(rows).len() == rows.len() * row_size(dims),
    decreases rows.len(),
{
    broadcast use lemma_le64;

    if rows.len() > 0 {
        let init = rows.drop_last();
        assert forall|i: int| 0 <= i < init.len() implies (#[trigger] init[i]).1.len() == dims by {
            assert(init[i] == rows[i]);
        }
        lemma_rows_len(init, dims);
        lemma_vector_len(rows.last().1);
        assert(rows[rows.len() - 1].1.len() == dims);
        let n = init.len() as int;
        let size = row_size(dims);
        assert((n + 1) * size == n * size + size) by (nonlinear_arith);
    } else {
        assert(0 * row_size(dims) == 0) by (nonlinear_arith);
    }
}

proof fn lemma_row_reads_back(rows: Seq<(u64, Seq<u32>)>, dims: int, k: int)
    requires
        0 <= k < rows.len(),
        forall|i: int| 0 <= i < rows.len() ==> (#[trigger] rows[i]).1.len() == dims,
    ensures
        0 <= k * row_size(dims),
        (k + 1) * row_size(dims) <= vector_rows(rows).len(),
        vector_rows(rows).subrange(k * row_size(dims), (k + 1) * row_size(dims)) == le64(rows[k].0)
            + vector_bytes(rows[k].1),
    decreases rows.len(),
{
    broadcast use lemma_le64;

    let size = row_size(dims);
    let init = rows.drop_last();
    assert forall|i: int| 0 <= i < init.len() implies (#[trigger] init[i]).1.len() == dims by {
        assert(init[i] == rows[i]);
    }
    assert(0 <= dims) by {
        assert(rows[k].1.len() == dims);
    }
    lemma_rows_len(rows, dims);
    lemma_rows_len(init, dims);
    assert(0 <= k * size) by (nonlinear_arith)
        requires
            0 <= k,
            0 <= size,
    ;
    assert((k + 1) * size <= rows.len() * size) by (nonlinear_arith)
        requires
            k + 1 <= rows.len(),
            0 <= size,
    ;
    assert((k + 1) * size == k * size + size) by (nonlinear_arith);
    lemma_vector_len(rows[k].1);
    if k == rows.len() - 1 {
        assert(vector_rows(rows).subrange(k * size, (k + 1) * size) =~= le64(rows[k].0)
            + vector_bytes(rows[k].1));
    } else {
        lemma_row_reads_back(init, dims, k);
        assert(vector_rows(rows).subrange(k * size, (k + 1) * size) =~= vector_rows(init).subrange(
            k * size,
            (k + 1) * size,
        ));
    }
}

/// The vectors of a flat section read back.
pub proof fn law_flat_section_reads_back(rows: Seq<(u64, Seq<u32>)>)
    requires
        even_dims(rows),
        dims_of(rows) < 0x1_0000_0000,
        rows.len() <= u64::MAX,
    ensures
        flat_rows(flat_section(rows)) == Some(rows),
{
    broadcast use {lemma_le32, lemma_le64};

    let dims = dims_of(rows) as int;
    let size = row_size(dims);
    let body = flat_section(rows);
    let head = le32((dims_of(rows) % 0x1_0000_0000) as u32) + le64(rows.len() as u64);
    assert(head.len() == 12);
    assert(body.subrange(0, 4) =~= le32((dims_of(rows) % 0x1_0000_0000) as u32));
    assert(body.subrange(4, 12) =~= le64(rows.len() as u64));
    assert(u32_at(body, 0) as int == dims);
    assert(u64_at(body, 4) as int == rows.len());
    lemma_rows_len(rows, dims);
    assert(body.len() == 12 + rows.len() * size);
    let got = flat_rows(body)->0;
    assert forall|k: int| 0 <= k < rows.len() implies #[trigger] got[k] == rows[k] by {
        lemma_row_reads_back(rows, dims, k);
        let off = 12 + k * size;
        let bytes = le64(rows[k].0) + vector_bytes(rows[k].1);
        lemma_vector_len(rows[k].1);
        assert(rows[k].1.len() == dims);
        assert((k + 1) * size == k * size + size) by (nonlinear_arith);
        assert(body.subrange(off, off + size) =~= vector_rows(rows).subrange(
            k * size,
            (k + 1) * size,
        ));
        assert(body.subrange(off, off + 8) =~= body.subrange(off, off + size).subrange(0, 8));
        assert(bytes.subrange(0, 8) =~= le64(rows[k].0));
        let v = vector_at(body, off, dims);
        assert(v.1 =~= rows[k].1) by {
            assert forall|d: int| 0 <= d < dims implies v.1[d] == rows[k].1[d] by {
                lemma_vector_reads_back(rows[k].1, d);
                assert(body.subrange(off + 8 + d * 4, off + 8 + d * 4 + 4) =~= body.subrange(
                    off,
                    off + size,
                ).subrange(8 + d * 4, 8 + d * 4 + 4));
                assert(bytes.subrange(8 + d * 4, 8 + d * 4 + 4) =~= vector_bytes(
                    rows[k].1,
                ).subrange(d * 4, d * 4 + 4));
            }
        }
    }
    assert(got =~= rows);
}

proof fn lemma_ids_len(ids: Seq<u64>)
    ensures
        id_bytes(ids).len() == 8 * ids.len(),
    decreases ids.len(),
{
    broadcast use lemma_le64;

    if ids.len() > 0 {
        lemma_ids_len(ids.drop_last());
    }
}

proof fn lemma_id_reads_back(ids: Seq<u64>, k: int)
    requires
        0 <= k < ids.len(),
    ensures
        id_bytes(ids).subrange(8 * k, 8 * k + 8) == le64(ids[k]),
    decreases ids.len(),
{
    broadcast use lemma_le64;

    let init = ids.drop_last();
    lemma_ids_len(ids);
    lemma_ids_len(init);
    if k == ids.len() - 1 {
        assert(id_bytes(ids).subrange(8 * k, 8 * k + 8) =~= le64(ids[k]));
    } else {
        lemma_id_reads_back(init, k);
        assert(id_bytes(ids).subrange(8 * k, 8 * k + 8) =~= id_bytes(init).subrange(
            8 * k,
            8 * k + 8,
        ));
    }
}

/// The ids of an id array read back.
pub proof fn law_id_array_reads_back(ids: Seq<u64>)
    ensures
        ids_in(id_bytes(ids)) == ids,
{
    broadcast use lemma_le64;

    lemma_ids_len(ids);
    let got = ids_in(id_bytes(ids));
    assert forall|k: int| 0 <= k < ids.len() implies #[trigger] got[k] == ids[k] by {
        lemma_id_reads_back(ids, k);
        lemma_le64(ids[k]);
    }
    assert(got =~= ids);
}

proof fn lemma_tell_push(
    sections: Seq<(Seq<char>, Seq<u8>)>,
    s: (Seq<char>, Seq<u8>),
    out: Seq<SectionView>,
    seen: Set<Seq<char>>,
    v: SectionView,
)
    requires
        told_apart(sections) == Ok::<(Seq<SectionView>, Set<Seq<char>>), Seq<char>>((out, seen)),
        section_of(s.0, s.1, seen) == Ok::<SectionView, Seq<char>>(v),
    ensures
        told_apart(sections.push(s)) == Ok::<(Seq<SectionView>, Set<Seq<char>>), Seq<char>>(
            (out.push(v), noted(seen, s.0)),
        ),
{
    assert(sections.push(s).drop_last() =~= sections);
}

proof fn lemma_names()
    ensures
        "meta2"@ != "meta"@,
        "metaidx"@ != "meta"@,
        "metaidx"@ != "meta2"@,
        forall|n: Seq<char>|
            #![trigger starts_with_text(n, "cent:"@)]
            n == "meta2"@ || n == "metaidx"@ || n == "rels"@ || n == "tombs"@ || n == "rtombs"@
                ==> !starts_with_text(n, "cent:"@),
        forall|n: Seq<char>|
            #![trigger starts_with_text(n, "clu:"@)]
            n == "rels"@ || n == "tombs"@ || n == "rtombs"@ ==> !starts_with_text(n, "clu:"@)
                && !starts_with_text(n, "emb:"@),
        "rels"@ != "meta"@ && "rels"@ != "meta2"@ && "rels"@ != "metaidx"@,
        "tombs"@ != "meta"@ && "tombs"@ != "meta2"@ && "tombs"@ != "metaidx"@ && "tombs"@
            != "rels"@,
        "rtombs"@ != "meta"@ && "rtombs"@ != "meta2"@ && "rtombs"@ != "metaidx"@ && "rtombs"@
            != "rels"@ && "rtombs"@ != "tombs"@,
{
    reveal_strlit("meta");
    reveal_strlit("meta2");
    reveal_strlit("metaidx");
    reveal_strlit("cent:");
    reveal_strlit("clu:");
    reveal_strlit("emb:");
    reveal_strlit("rels");
    reveal_strlit("tombs");
    reveal_strlit("rtombs");
    assert("rels"@[0] == 'r' && "tombs"@[0] == 't' && "rtombs"@[0] == 'r' && "meta2"@[0] == 'm'
        && "metaidx"@[0] == 'm' && "meta"@[0] == 'm');
    assert("rels"@[1] == 'e' && "rtombs"@[1] == 't');
    assert("metaidx"@.len() == 7 && "meta2"@.len() == 5 && "meta"@.len() == 4);
    assert forall|n: Seq<char>|
        #![trigger starts_with_text(n, "cent:"@)]
        starts_with_text(n, "cent:"@) implies n[0] == 'c' by {
        assert(n.subrange(0, 5)[0] == "cent:"@[0]);
    }
    assert forall|n: Seq<char>|
        #![trigger starts_with_text(n, "clu:"@)]
        starts_with_text(n, "clu:"@) implies n[0] == 'c' by {
        assert(n.subrange(0, 4)[0] == "clu:"@[0]);
    }
    assert forall|n: Seq<char>|
        #![trigger starts_with_text(n, "emb:"@)]
        starts_with_text(n, "emb:"@) implies n[0] == 'e' by {
        assert(n.subrange(0, 4)[0] == "emb:"@[0]);
    }
}

proof fn lemma_space_names(space: Seq<char>)
    ensures
        starts_with_text("cent:"@ + space, "cent:"@),
        after_prefix("cent:"@ + space, 5) == space,
        starts_with_text("clu:"@ + space, "clu:"@),
        after_prefix("clu:"@ + space, 4) == space,
        !starts_with_text("clu:"@ + space, "cent:"@),
        starts_with_text("emb:"@ + space, "emb:"@),
        after_prefix("emb:"@ + space, 4) == space,
        !starts_with_text("emb:"@ + space, "cent:"@),
        !starts_with_text("emb:"@ + space, "clu:"@),
        ({
            let c = "cent:"@ + space;
            c != "meta"@ && c != "meta2"@ && c != "metaidx"@
        }),
        ({
            let c = "clu:"@ + space;
            c != "meta"@ && c != "meta2"@ && c != "metaidx"@
        }),
        ({
            let c = "emb:"@ + space;
            c != "meta"@ && c != "meta2"@ && c != "metaidx"@
        }),
{
    reveal_strlit("meta");
    reveal_strlit("meta2");
    reveal_strlit("metaidx");
    reveal_strlit("cent:");
    reveal_strlit("clu:");
    reveal_strlit("emb:");
    let cent = "cent:"@ + space;
    let clu = "clu:"@ + space;
    let emb = "emb:"@ + space;
    assert(cent.subrange(0, 5) =~= "cent:"@);
    assert(clu.subrange(0, 4) =~= "clu:"@);
    assert(emb.subrange(0, 4) =~= "emb:"@);
    assert(after_prefix(cent, 5) =~= space);
    assert(after_prefix(clu, 4) =~= space);
    assert(after_prefix(emb, 4) =~= space);
    assert(cent[0] == 'c' && clu[0] == 'c' && clu[1] == 'l' && emb[0] == 'e');
    assert("meta"@[0] == 'm' && "meta2"@[0] == 'm' && "metaidx"@[0] == 'm');
    assert("cent:"@[0] == 'c' && "cent:"@[1] == 'e' && "clu:"@[0] == 'c');
    if starts_with_text(clu, "cent:"@) {
        assert(clu.subrange(0, 5)[1] == "cent:"@[1]);
    }
    if starts_with_text(emb, "cent:"@) {
        assert(emb.subrange(0, 5)[0] == "cent:"@[0]);
    }
    if starts_with_text(emb, "clu:"@) {
        assert(emb.subrange(0, 4)[0] == "clu:"@[0]);
    }
}

proof fn lemma_spaces_told(
    first: Seq<(Seq<char>, Seq<u8>)>,
    out: Seq<SectionView>,
    spaces: Seq<(Seq<char>, Seq<(u64, Seq<u32>)>)>,
    clusters: Map<Seq<char>, (Seq<u8>, Seq<u8>)>,
)
    requires
        told_apart(first) is Ok,
        told_apart(first)->Ok_0.0 == out,
        forall|i: int| 0 <= i < spaces.len() ==> even_dims((#[trigger] spaces[i]).1),
        forall|i: int|
            0 <= i < spaces.len() && !clusters.contains_key((#[trigger] spaces[i]).0) ==> dims_of(
                spaces[i].1,
            ) < 0x1_0000_0000,
        forall|i: int| 0 <= i < spaces.len() ==> (#[trigger] spaces[i]).1.len() <= u64::MAX,
    ensures
        told_apart(first + all_space_sections(spaces, clusters)) is Ok,
        told_apart(first + all_space_sections(spaces, clusters))->Ok_0.0 == out + read_spaces(
            spaces,
            clusters,
        ),
    decreases spaces.len(),
{
    if spaces.len() == 0 {
        assert(first + all_space_sections(spaces, clusters) =~= first);
        assert(out + read_spaces(spaces, clusters) =~= out);
    } else {
        let init = spaces.drop_last();
        let (space, rows) = spaces.last();
        assert forall|i: int| 0 <= i < init.len() implies even_dims((#[trigger] init[i]).1) by {
            assert(init[i] == spaces[i]);
        }
        assert forall|i: int|
            0 <= i < init.len() && !clusters.contains_key((#[trigger] init[i]).0) implies dims_of(
            init[i].1,
        ) < 0x1_0000_0000 by {
            assert(init[i] == spaces[i]);
        }
        assert forall|i: int| 0 <= i < init.len() implies (#[trigger] init[i]).1.len()
            <= u64::MAX by {
            assert(init[i] == spaces[i]);
        }
        assert(spaces[spaces.len() - 1] == spaces.last());
        lemma_spaces_told(first, out, init, clusters);
        lemma_space_names(space);
        let before = first + all_space_sections(init, clusters);
        let (o, seen) = told_apart(before)->Ok_0;
        if clusters.contains_key(space) {
            let cent = ("cent:"@ + space, clusters[space].0);
            let clu = ("clu:"@ + space, clusters[space].1);
            let v1 = SectionView::Centroids { space, body: clusters[space].0 };
            let v2 = SectionView::Clusters { space, body: clusters[space].1 };
            lemma_tell_push(before, cent, o, seen, v1);
            lemma_tell_push(before.push(cent), clu, o.push(v1), seen.insert(cent.0), v2);
            assert(first + all_space_sections(spaces, clusters) =~= before.push(cent).push(clu));
            assert(out + read_spaces(spaces, clusters) =~= o.push(v1).push(v2));
        } else {
            let emb = ("emb:"@ + space, flat_section(rows));
            let v = SectionView::Embeddings { space, rows };
            law_flat_section_reads_back(rows);
            lemma_tell_push(before, emb, o, seen, v);
            assert(first + all_space_sections(spaces, clusters) =~= before.push(emb));
            assert(out + read_spaces(spaces, clusters) =~= o.push(v));
        }
    }
}

proof fn lemma_reads_back(
    parts: SegmentParts,
    rows: Seq<SegmentRow>,
    spaces: Seq<(Seq<char>, Seq<(u64, Seq<u32>)>)>,
    clusters: Map<Seq<char>, (Seq<u8>, Seq<u8>)>,
    rtombs: Seq<u8>,
    toc: Seq<u8>,
)
    requires
        fields_suffice(toc, spaces, clusters),
        forall|i: int| 0 <= i < spaces.len() ==> even_dims((#[trigger] spaces[i]).1),
        forall|i: int| 0 <= i < spaces.len() ==> (#[trigger] spaces[i]).1.len() <= u64::MAX,
        reads_as_texts(rtombs, text_views(parts.relation_tombstones@)),
        ({
            let sections = segment_sections(parts, rows, spaces, clusters, rtombs);
            &&& reads_as_toc(toc, toc_of(sections))
            &&& forall|i: int|
                0 <= i < sections.len() ==> (#[trigger] sections[i]).1.len() <= u64::MAX
        }),
    ensures
        reads_as(
            file_bytes(
                parts.max_id,
                toc,
                segment_sections(parts, rows, spaces, clusters, rtombs),
            ),
            parts.max_id,
            read_sections(parts, rows, spaces, clusters),
        ),
{
    broadcast use {lemma_le32, lemma_le64};

    let sections = segment_sections(parts, rows, spaces, clusters, rtombs);
    let b = file_bytes(parts.max_id, toc, sections);
    let size = (toc.len() % 0x1_0000_0000) as u32;
    let head = magic_v3() + le64(parts.max_id) + le32(size) + toc;
    assert(b.subrange(8, 16) =~= le64(parts.max_id));
    assert(b.subrange(16, 20) =~= le32(size));
    assert(b.subrange(20, 20 + toc.len() as int) =~= toc);
    assert(head.len() == 20 + toc.len());
    lemma_names();
    // The rows and their index.
    let none = Seq::<(Seq<char>, Seq<u8>)>::empty();
    let meta = ("meta2"@, joined_rows(rows));
    let index = ("metaidx"@, index_section(rows));
    let o1 = seq![SectionView::Rows(joined_rows(rows)), SectionView::Skipped];
    assert(!starts_with_text("meta2"@, "cent:"@));
    assert(!starts_with_text("metaidx"@, "cent:"@));
    lemma_tell_push(none, meta, Seq::empty(), Set::empty(), o1[0]);
    lemma_tell_push(none.push(meta), index, Seq::empty().push(o1[0]), Set::empty(), o1[1]);
    let first = none.push(meta).push(index);
    assert(Seq::<SectionView>::empty().push(o1[0]).push(o1[1]) =~= o1);
    // The spaces.
    lemma_spaces_told(first, o1, spaces, clusters);
    let middle = first + all_space_sections(spaces, clusters);
    let (o2, seen) = told_apart(middle)->Ok_0;
    // Edges and deletes.
    law_id_array_reads_back(parts.tombstones@);
    let rels = ("rels"@, parts.relations@);
    let tombs = ("tombs"@, id_bytes(parts.tombstones@));
    let dead = ("rtombs"@, rtombs);
    let v1 = SectionView::Relations(parts.relations@);
    let v2 = SectionView::Tombstones(parts.tombstones@);
    let v3 = SectionView::RelationTombstones(text_views(parts.relation_tombstones@));
    assert(!starts_with_text("rels"@, "cent:"@) && !starts_with_text("rels"@, "clu:"@));
    assert(!starts_with_text("tombs"@, "cent:"@) && !starts_with_text("tombs"@, "clu:"@));
    assert(!starts_with_text("rtombs"@, "cent:"@) && !starts_with_text("rtombs"@, "clu:"@));
    lemma_tell_push(middle, rels, o2, seen, v1);
    lemma_tell_push(middle.push(rels), tombs, o2.push(v1), seen, v2);
    lemma_tell_push(middle.push(rels).push(tombs), dead, o2.push(v1).push(v2), seen, v3);
    assert(sections =~= middle.push(rels).push(tombs).push(dead));
    assert(read_sections(parts, rows, spaces, clusters) =~= o2.push(v1).push(v2).push(v3));
    lemma_read_written(b, head, sections, sections.len() as int);
    assert(sections.subrange(0, sections.len() as int) =~= sections);
    assert(toc_of(sections).subrange(0, sections.len() as int) =~= toc_of(sections));
    assert(b =~= head + joined_bodies(sections));
}

/// What was written reads back: the high-water mark, and section by section the rows,
/// the vectors, the edges and the deletes.
pub proof fn law_segment_reads_back(
    parts: SegmentParts,
    clusters: Map<Seq<char>, (Seq<u8>, Seq<u8>)>,
    rows: Seq<SegmentRow>,
    spaces: Seq<(Seq<char>, Seq<(u64, Seq<u32>)>)>,
    rtombs: Seq<u8>,
    toc: Seq<u8>,
    b: Seq<u8>,
)
    requires
        is_file_of(parts, clusters, rows, spaces, rtombs, toc, b),
        fields_suffice(toc, spaces, clusters),
    ensures
        reads_as(b, parts.max_id, read_sections(parts, rows, spaces, clusters)),
{
    lemma_reads_back(parts, rows, spaces, clusters, rtombs, toc);
}

// ── Files that break off ────────────────────────────────────────────────

/// No proper prefix of the bytes reads as a segment.
pub open spec fn no_prefix_reads(b: Seq<u8>) -> bool {
    forall|k: int| 0 <= k < b.len() ==> decoded(#[trigger] b.subrange(0, k)) is Err
}

/// The length of the sections that a table of contents lists.
spec fn toc_size(toc: Seq<(Seq<char>, u64)>) -> int
    decreases toc.len(),
{
    if toc.len() == 0 {
        0
    } else {
        toc_size(toc.drop_last()) + toc.last().1
    }
}

proof fn lemma_read_ends(b: Seq<u8>, toc: Seq<(Seq<char>, u64)>, start: int)
    ensures
        read_toc(b, toc, start) matches Ok(v) ==> v.pos == start + toc_size(toc) && (toc.len() > 0
            ==> v.pos <= b.len()),
    decreases toc.len(),
{
    if toc.len() > 0 {
        lemma_read_ends(b, toc.drop_last(), start);
    }
}

proof fn lemma_toc_size(sections: Seq<(Seq<char>, Seq<u8>)>)
    requires
        forall|i: int| 0 <= i < sections.len() ==> (#[trigger] sections[i]).1.len() <= u64::MAX,
    ensures
        toc_size(toc_of(sections)) == joined_bodies(sections).len(),
    decreases sections.len(),
{
    if sections.len() > 0 {
        let init = sections.drop_last();
        assert forall|i: int| 0 <= i < init.len() implies (#[trigger] init[i]).1.len()
            <= u64::MAX by {
            assert(init[i] == sections[i]);
        }
        lemma_toc_size(init);
        assert(toc_of(sections).drop_last() =~= toc_of(init));
        assert(sections[sections.len() - 1].1.len() <= u64::MAX);
    }
}

/// No proper prefix of a written segment is accepted: a file that breaks off, at
/// whatever byte, is refused. It is still told as a segment file by its first bytes,
/// unless it breaks off within these.
pub proof fn law_no_prefix_of_a_segment_reads(
    parts: SegmentParts,
    clusters: Map<Seq<char>, (Seq<u8>, Seq<u8>)>,
    rows: Seq<SegmentRow>,
    spaces: Seq<(Seq<char>, Seq<(u64, Seq<u32>)>)>,
    rtombs: Seq<u8>,
    toc: Seq<u8>,
    b: Seq<u8>,
)
    requires
        is_file_of(parts, clusters, rows, spaces, rtombs, toc, b),
        toc.len() < 0x1_0000_0000,
    ensures
        no_prefix_reads(b),
        forall|k: int| 8 <= k <= b.len() ==> is_segment_file(#[trigger] b.subrange(0, k)),
{
    broadcast use {lemma_le32, lemma_le64};

    assert forall|k: int| 8 <= k <= b.len() implies is_segment_file(#[trigger] b.subrange(0, k)) by {
        assert(b.subrange(0, k).subrange(0, 8) =~= magic_v3());
    }

    let sections = segment_sections(parts, rows, spaces, clusters, rtombs);
    let size = (toc.len() % 0x1_0000_0000) as u32;
    assert(b.subrange(16, 20) =~= le32(size));
    assert(b.subrange(20, 20 + toc.len() as int) =~= toc);
    assert(b.len() == 20 + toc.len() + joined_bodies(sections).len());
    lemma_toc_size(sections);
    assert forall|k: int| 0 <= k < b.len() implies decoded(#[trigger] b.subrange(0, k)) is Err by {
        let p = b.subrange(0, k);
        if k >= 20 {
            assert(p.subrange(16, 20) =~= b.subrange(16, 20));
            if 20 + toc.len() <= k {
                assert(p.subrange(20, 20 + toc.len() as int) =~= toc);
                assert(toc_of(sections).len() > 0);
                lemma_read_ends(p, toc_of(sections), 20 + toc.len() as int);
            }
        }
    }
}

// ── The file's layout ───────────────────────────────────────────────────

/// A segment file begins with its mark and version, the highest id in 8 bytes and the length
/// of its table of contents in 4, little-endian; the table and the sections follow.
pub proof fn law_file_layout(max_id: u64, toc: Seq<u8>, sections: Seq<(Seq<char>, Seq<u8>)>)
    requires
        toc.len() < 0x1_0000_0000,
    ensures
        ({
            let b = file_bytes(max_id, toc, sections);
            &&& b.subrange(0, 8) == seq![0x43u8, 0x53, 0x45, 0x47, 0x30, 0x30, 0x30, 0x33]
            &&& b.subrange(8, 16) == le64(max_id)
            &&& b.subrange(16, 20) == le32(toc.len() as u32)
            &&& b.subrange(20, 20 + toc.len() as int) == toc
            &&& b.subrange(20 + toc.len() as int, b.len() as int) == joined_bodies(sections)
            &&& is_segment_file(b)
        }),
{
    lemma_le64(max_id);
    lemma_le32(toc.len() as u32);
    let b = file_bytes(max_id, toc, sections);
    assert(b.subrange(0, 8) =~= seq![0x43u8, 0x53, 0x45, 0x47, 0x30, 0x30, 0x30, 0x33]);
    assert(b.subrange(8, 16) =~= le64(max_id));
    assert(b.subrange(16, 20) =~= le32(toc.len() as u32));
    assert(b.subrange(20, 20 + toc.len() as int) =~= toc);
    assert(b.subrange(20 + toc.len() as int, b.len() as int) =~= joined_bodies(sections));
}

/// The sections of a segment: the chunks, their index, the vectors of each space, the edges,
/// the deleted chunks and the deleted edges. The table of contents gives each one's name
/// and length, and the bodies follow one another.
pub proof fn law_sections_of_a_segment(
    parts: SegmentParts,
    rows: Seq<SegmentRow>,
    spaces: Seq<(Seq<char>, Seq<(u64, Seq<u32>)>)>,
    clusters: Map<Seq<char>, (Seq<u8>, Seq<u8>)>,
    rtombs: Seq<u8>,
    i: int,
)
    ensures
        ({
            let s = segment_sections(parts, rows, spaces, clusters, rtombs);
            let n = s.len();
            &&& n >= 5
            &&& s[0] == ("meta2"@, joined_rows(rows))
            &&& s[1] == ("metaidx"@, index_section(rows))
            &&& s.subrange(2, n - 3) == all_space_sections(spaces, clusters)
            &&& s[n - 3] == ("rels"@, parts.relations@)
            &&& s[n - 2] == ("tombs"@, id_bytes(parts.tombstones@))
            &&& s[n - 1] == ("rtombs"@, rtombs)
            &&& 0 <= i < n ==> toc_of(s)[i] == (s[i].0, s[i].1.len() as u64)
            &&& toc_of(s).len() == n
        }),
{
    let s = segment_sections(parts, rows, spaces, clusters, rtombs);
    assert(s.subrange(2, s.len() - 3) =~= all_space_sections(spaces, clusters));
}

/// A clustered space has two sections, its centroids and its clusters; any other has one.
pub proof fn law_sections_of_a_space(
    space: Seq<char>,
    rows: Seq<(u64, Seq<u32>)>,
    spaces: Seq<(Seq<char>, Seq<(u64, Seq<u32>)>)>,
    clusters: Map<Seq<char>, (Seq<u8>, Seq<u8>)>,
)
    ensures
        all_space_sections(spaces.push((space, rows)), clusters) == all_space_sections(
            spaces,
            clusters,
        ) + if clusters.contains_key(space) {
            seq![("cent:"@ + space, clusters[space].0), ("clu:"@ + space, clusters[space].1)]
        } else {
            seq![("emb:"@ + space, flat_section(rows))]
        },
{
    assert(spaces.push((space, rows)).drop_last() =~= spaces);
}

/// The flat section of a space gives the width in 4 bytes and the number of vectors in 8, and
/// for each vector its chunk in 8 bytes and its components in 4 each, little-endian.
pub proof fn law_flat_section_layout(
    rows: Seq<(u64, Seq<u32>)>,
    id: u64,
    v: Seq<u32>,
    x: u32,
)
    ensures
        dims_of(rows) < 0x1_0000_0000 ==> flat_section(rows).subrange(0, 4) == le32(
            dims_of(rows) as u32,
        ),
        flat_section(rows).subrange(4, 12) == le64(rows.len() as u64),
        flat_section(rows).subrange(12, flat_section(rows).len() as int) == vector_rows(rows),
        vector_rows(rows.push((id, v))) == vector_rows(rows) + le64(id) + vector_bytes(v),
        vector_bytes(v.push(x)) == vector_bytes(v) + le32(x),
        rows.len() > 0 ==> dims_of(rows) == rows[0].1.len(),
{
    let d = (dims_of(rows) % 0x1_0000_0000) as u32;
    lemma_le32(d);
    lemma_le64(rows.len() as u64);
    let b = flat_section(rows);
    assert(b.subrange(0, 4) =~= le32(d));
    assert(b.subrange(4, 12) =~= le64(rows.len() as u64));
    assert(b.subrange(12, b.len() as int) =~= vector_rows(rows));
    assert(rows.push((id, v)).drop_last() =~= rows);
    assert(v.push(x).drop_last() =~= v);
}

proof fn lemma_index_len(rows: Seq<SegmentRow>)
    ensures
        index_entries(rows).len() == 20 * rows.len(),
    decreases rows.len(),
{
    if rows.len() > 0 {
        lemma_index_len(rows.drop_last());
        lemma_le64(rows.last().id);
        lemma_le64(joined_rows(rows.drop_last()).len() as u64);
        lemma_le32((rows.last().row@.len() % 0x1_0000_0000) as u32);
    }
}

proof fn lemma_index_entry(rows: Seq<SegmentRow>, i: int)
    requires
        0 <= i < rows.len(),
    ensures
        ({
            let off = joined_rows(rows.subrange(0, i)).len();
            let n = rows[i].row@.len();
            &&& off + n <= joined_rows(rows).len()
            &&& joined_rows(rows).subrange(off as int, (off + n) as int) == rows[i].row@
            &&& index_entries(rows).subrange(20 * i, 20 * i + 20) == le64(rows[i].id) + le64(
                off as u64,
            ) + le32((n % 0x1_0000_0000) as u32)
        }),
    decreases rows.len(),
{
    let init = rows.drop_last();
    let off = joined_rows(rows.subrange(0, i)).len();
    let n = rows[i].row@.len();
    let entry = le64(rows[i].id) + le64(off as u64) + le32((n % 0x1_0000_0000) as u32);
    lemma_index_len(init);
    lemma_index_len(rows);
    lemma_le64(rows[i].id);
    lemma_le64(off as u64);
    lemma_le32((n % 0x1_0000_0000) as u32);
    if i == init.len() {
        assert(rows.subrange(0, i) =~= init);
        assert(joined_rows(rows).subrange(off as int, (off + n) as int) =~= rows[i].row@);
        assert(index_entries(rows).subrange(20 * i, 20 * i + 20) =~= entry);
    } else {
        lemma_index_entry(init, i);
        assert(init.subrange(0, i) =~= rows.subrange(0, i));
        assert(init[i] == rows[i]);
        assert(joined_rows(rows).subrange(off as int, (off + n) as int) =~= joined_rows(init).subrange(
            off as int,
            (off + n) as int,
        ));
        assert(index_entries(rows).subrange(20 * i, 20 * i + 20) =~= index_entries(init).subrange(
            20 * i,
            20 * i + 20,
        ));
    }
}

/// The index of a segment finds each chunk: it gives the number of chunks, and for each its id,
/// where its row begins among the rows, and how long the row is; there the row stands.
pub proof fn law_index_finds_each_row(rows: Seq<SegmentRow>, i: int)
    requires
        0 <= i < rows.len(),
    ensures
        ({
            let off = joined_rows(rows.subrange(0, i)).len();
            let n = rows[i].row@.len();
            &&& index_section(rows).subrange(0, 8) == le64(rows.len() as u64)
            &&& index_section(rows).len() == 8 + 20 * rows.len()
            &&& index_section(rows).subrange(8 + 20 * i, 28 + 20 * i) == le64(rows[i].id) + le64(
                off as u64,
            ) + le32((n % 0x1_0000_0000) as u32)
            &&& joined_rows(rows).subrange(off as int, (off + n) as int) == rows[i].row@
        }),
{
    lemma_index_entry(rows, i);
    lemma_index_len(rows);
    lemma_le64(rows.len() as u64);
    assert(index_section(rows).subrange(0, 8) =~= le64(rows.len() as u64));
    assert(index_section(rows).subrange(8 + 20 * i, 28 + 20 * i) =~= index_entries(rows).subrange(
        20 * i,
        20 * i + 20,
    ));
}

/// The rows of a segment stand in the order of their ids, and are those given.
pub proof fn law_rows_by_id(
    rows: Seq<SegmentRow>,
    sorted: Seq<SegmentRow>,
    i: int,
    j: int,
    r: SegmentRow,
)
    requires
        rows_in_order(rows, sorted),
    ensures
        sorted.len() == rows.len(),
        0 <= i <= j < sorted.len() ==> sorted[i].id <= sorted[j].id,
        sorted.contains(r) <==> rows.contains(r),
{
    let a = ranked_rows(rows);
    let b = ranked_rows(sorted);
    let e = (r.id as i128, r);
    crate::sorting::law_sorting_orders_what_there_is(a, b, e, i, j);
    if rows.contains(r) {
        let k = choose|k: int| 0 <= k < rows.len() && rows[k] == r;
        assert(a[k] == e);
        assert(b.contains(e));
        let m = choose|m: int| 0 <= m < b.len() && b[m] == e;
        assert(sorted[m] == r);
    }
    if sorted.contains(r) {
        let k = choose|k: int| 0 <= k < sorted.len() && sorted[k] == r;
        assert(b[k] == e);
        assert(a.contains(e));
        let m = choose|m: int| 0 <= m < a.len() && a[m] == e;
        assert(rows[m] == r);
    }
}

/// A section is read by its name; the rest of a space's section name is the space.
pub proof fn law_sections_by_name(space: Seq<char>, body: Seq<u8>, seen: Set<Seq<char>>)
    ensures
        section_of("meta"@, body, seen) == Ok::<SectionView, Seq<char>>(SectionView::Meta(body)),
        section_of("meta2"@, body, seen) == Ok::<SectionView, Seq<char>>(SectionView::Rows(body)),
        section_of("rels"@, body, seen) == Ok::<SectionView, Seq<char>>(
            SectionView::Relations(body),
        ),
        section_of("tombs"@, body, seen) == Ok::<SectionView, Seq<char>>(
            SectionView::Tombstones(ids_in(body)),
        ),
        section_of("cent:"@ + space, body, seen) == Ok::<SectionView, Seq<char>>(
            SectionView::Centroids { space, body },
        ),
        seen.contains("cent:"@ + space) ==> section_of("clu:"@ + space, body, seen) == Ok::<
            SectionView,
            Seq<char>,
        >(SectionView::Clusters { space, body }),
        !seen.contains("cent:"@ + space) ==> section_of("clu:"@ + space, body, seen) is Err,
        flat_rows(body) matches Some(rows) ==> section_of("emb:"@ + space, body, seen) == Ok::<
            SectionView,
            Seq<char>,
        >(SectionView::Embeddings { space, rows }),
        flat_rows(body) is None ==> section_of("emb:"@ + space, body, seen) is Err,
{
    lemma_names();
    lemma_space_names(space);
}

/// A file is a segment file by its first 8 bytes, `CSEG0002` or `CSEG0003`.
pub proof fn law_segment_files_are_marked(b: Seq<u8>)
    ensures
        is_segment_file(b) <==> b.len() >= 8 && (b.subrange(0, 8) == seq![
            0x43u8,
            0x53,
            0x45,
            0x47,
            0x30,
            0x30,
            0x30,
            0x32,
        ] || b.subrange(0, 8) == seq![0x43u8, 0x53, 0x45, 0x47, 0x30, 0x30, 0x30, 0x33]),
{
}

} // verus!
