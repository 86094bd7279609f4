//! Facets: how often each text occurs in the metadata fields of some chunks.
use crate::assoc::{distinct_keys, has_key, lemma_pairs_at, lookup, pairs_map};
use crate::duplicate::text_views;
use crate::id_map::IdMap;
use crate::models::{texts_contain, ChunkView, DocumentChunk, MetaView, MetadataValue};
use crate::string_map::StringMap;
use std::collections::HashSet;
use vstd::prelude::*;
use vstd::string::*;

verus! {

broadcast use vstd::std_specs::hash::group_hash_axioms;

/// The field is asked for: every field is, unless some are named.
pub open spec fn field_asked(fields: Seq<Seq<char>>, field: Seq<char>) -> bool {
    fields.len() == 0 || fields.contains(field)
}

/// The chunk is among those to be counted and has the text in the field.
pub open spec fn has_text(
    e: (u64, ChunkView),
    among: Set<u64>,
    field: Seq<char>,
    text: Seq<char>,
) -> bool {
    among.contains(e.0) && lookup(e.1.metadata, field) == Some(MetaView::Text(text))
}

/// How many of the chunks have the text in the field.
pub open spec fn tally(
    chunks: Seq<(u64, ChunkView)>,
    among: Set<u64>,
    field: Seq<char>,
    text: Seq<char>,
) -> int
    decreases chunks.len(),
{
    if chunks.len() == 0 {
        0
    } else {
        tally(chunks.drop_last(), among, field, text) + if has_text(
            chunks.last(),
            among,
            field,
            text,
        ) {
            1int
        } else {
            0int
        }
    }
}

/// What facets say of a text in a field: 0 where they do not mention it.
pub open spec fn facet(
    facets: Map<Seq<char>, Map<Seq<char>, u64>>,
    field: Seq<char>,
    text: Seq<char>,
) -> int {
    if facets.contains_key(field) && facets[field].contains_key(text) {
        facets[field][text] as int
    } else {
        0
    }
}

/// Facets mention no field without a text, and no text that does not occur.
pub open spec fn mentions_what_occurs(facets: Map<Seq<char>, Map<Seq<char>, u64>>) -> bool {
    &&& forall|f: Seq<char>| #[trigger]
        facets.contains_key(f) ==> exists|t: Seq<char>| #[trigger] facets[f].contains_key(t)
    &&& forall|f: Seq<char>, t: Seq<char>| #[trigger]
        facets[f].contains_key(t) && facets.contains_key(f) ==> facets[f][t] > 0
}

/// Counts a text in a field once more.
fn bump(facets: &mut StringMap<StringMap<u64>>, field: &str, text: &str)
    requires
        facet(old(facets)@, field@, text@) < u64::MAX,
    ensures
        facet(final(facets)@, field@, text@) == facet(old(facets)@, field@, text@) + 1,
        forall|f: Seq<char>, t: Seq<char>|
            f != field@ || t != text@ ==> #[trigger] facet(final(facets)@, f, t) == facet(
                old(facets)@,
                f,
                t,
            ),
        mentions_what_occurs(old(facets)@) ==> mentions_what_occurs(final(facets)@),
{
    let ghost before = facets@;
    let mut inner: StringMap<u64> = match facets.remove(field) {
        Some(m) => m,
        None => StringMap::new(),
    };
    let count: u64 = match inner.get(text) {
        Some(n) => *n,
        None => 0,
    };
    inner.insert(crate::text::own(text), count + 1);
    facets.insert(crate::text::own(field), inner);
    proof {
        if mentions_what_occurs(before) {
            assert(facets@[field@].contains_key(text@));
            assert forall|f: Seq<char>| #[trigger] facets@.contains_key(f) implies exists|
                t: Seq<char>,
            | #[trigger] facets@[f].contains_key(t) by {
                if f != field@ {
                    assert(before.contains_key(f));
                    let t = choose|t: Seq<char>| #[trigger] before[f].contains_key(t);
                    assert(facets@[f].contains_key(t));
                }
            }
            assert forall|f: Seq<char>, t: Seq<char>| #[trigger]
                facets@[f].contains_key(t) && facets@.contains_key(f) implies facets@[f][t] > 0 by {
                if f != field@ {
                    assert(before.contains_key(f) && before[f].contains_key(t));
                } else if t != text@ {
                    assert(before.contains_key(f) && before[f].contains_key(t));
                }
            }
        }
    }
}

/// One of the first `n` fields of a chunk is this one, is asked for, and has the
/// text.
pub open spec fn seen_in(
    metadata: Seq<(Seq<char>, MetaView)>,
    n: int,
    fields: Seq<Seq<char>>,
    field: Seq<char>,
    text: Seq<char>,
) -> bool {
    field_asked(fields, field) && exists|k: int|
        0 <= k < n && #[trigger] metadata[k] == (field, MetaView::Text(text))
}

/// What facets say after some chunks, and after some fields of one more.
pub open spec fn counted_so_far(
    facets: Map<Seq<char>, Map<Seq<char>, u64>>,
    before: Seq<(u64, ChunkView)>,
    among: Set<u64>,
    fields: Seq<Seq<char>>,
    metadata: Seq<(Seq<char>, MetaView)>,
    n: int,
) -> bool {
    forall|f: Seq<char>, t: Seq<char>| #[trigger]
        facet(facets, f, t) == (if field_asked(fields, f) {
            tally(before, among, f, t)
        } else {
            0
        }) + if seen_in(metadata, n, fields, f, t) {
            1int
        } else {
            0int
        }
}

proof fn lemma_tally_bound(
    chunks: Seq<(u64, ChunkView)>,
    among: Set<u64>,
    field: Seq<char>,
    text: Seq<char>,
)
    ensures
        0 <= tally(chunks, among, field, text) <= chunks.len(),
    decreases chunks.len(),
{
    if chunks.len() > 0 {
        lemma_tally_bound(chunks.drop_last(), among, field, text);
    }
}

fn count_chunk(
    facets: &mut StringMap<StringMap<u64>>,
    chunk: &DocumentChunk,
    fields: &Vec<String>,
    Ghost(before): Ghost<Seq<(u64, ChunkView)>>,
    Ghost(among): Ghost<Set<u64>>,
)
    requires
        before.len() < usize::MAX,
        counted_so_far(
            old(facets)@,
            before,
            among,
            text_views(fields@),
            chunk.metadata.pairs(),
            0,
        ),
        mentions_what_occurs(old(facets)@),
    ensures
        mentions_what_occurs(final(facets)@),
        counted_so_far(
            final(facets)@,
            before,
            among,
            text_views(fields@),
            chunk.metadata.pairs(),
            chunk.metadata.pairs().len() as int,
        ),
{
    let n: usize = chunk.metadata.len();
    let ghost mp = chunk.metadata.pairs();
    let ghost asked = text_views(fields@);
    let mut j: usize = 0;
    while j < n
        invariant
            n == mp.len(),
            mp == chunk.metadata.pairs(),
            distinct_keys(mp),
            asked == text_views(fields@),
            j <= n,
            before.len() < usize::MAX,
            counted_so_far(facets@, before, among, asked, mp, j as int),
            mentions_what_occurs(facets@),
        decreases n - j,
    {
        let ghost earlier = facets@;
        let key = chunk.metadata.key_at(j);
        let wanted = fields.len() == 0 || texts_contain(fields, key.as_str());
        proof {
            assert(asked.len() == fields@.len());
        }
        let mut counts = false;
        if let MetadataValue::String(s) = chunk.metadata.value_at(j) {
            if wanted {
                counts = true;
                proof {
                    lemma_tally_bound(before, among, key@, s@);
                    assert(!seen_in(mp, j as int, asked, key@, s@));
                    assert(facet(facets@, key@, s@) == tally(before, among, key@, s@));
                }
                bump(facets, key.as_str(), s.as_str());
            }
        }
        proof {
            assert forall|f: Seq<char>, t: Seq<char>| #[trigger]
                facet(facets@, f, t) == (if field_asked(asked, f) {
                    tally(before, among, f, t)
                } else {
                    0
                }) + if seen_in(mp, j + 1, asked, f, t) {
                    1int
                } else {
                    0int
                } by {
                let was = seen_in(mp, j as int, asked, f, t);
                let now = seen_in(mp, j + 1, asked, f, t);
                let this = field_asked(asked, f) && mp[j as int] == (f, MetaView::Text(t));
                assert(now <==> was || this) by {
                    if was {
                        let k = choose|k: int|
                            0 <= k < j && #[trigger] mp[k] == (f, MetaView::Text(t));
                        assert(mp[k] == (f, MetaView::Text(t)));
                    }
                    if this {
                        assert(mp[j as int] == (f, MetaView::Text(t)));
                    }
                    if now {
                        let k = choose|k: int|
                            0 <= k < j + 1 && #[trigger] mp[k] == (f, MetaView::Text(t));
                        if k < j {
                            assert(mp[k] == (f, MetaView::Text(t)));
                        }
                    }
                }
                assert(!(was && this)) by {
                    if was && this {
                        let k = choose|k: int|
                            0 <= k < j && #[trigger] mp[k] == (f, MetaView::Text(t));
                        assert(mp[k].0 != mp[j as int].0);
                    }
                }
                assert(facet(earlier, f, t) == (if field_asked(asked, f) {
                    tally(before, among, f, t)
                } else {
                    0
                }) + if was {
                    1int
                } else {
                    0int
                });
            }
        }
        j = j + 1;
    }
}

proof fn lemma_next_chunk(
    facets: Map<Seq<char>, Map<Seq<char>, u64>>,
    before: Seq<(u64, ChunkView)>,
    e: (u64, ChunkView),
    among: Set<u64>,
    fields: Seq<Seq<char>>,
    metadata: Seq<(Seq<char>, MetaView)>,
    next: Seq<(Seq<char>, MetaView)>,
)
    requires
        distinct_keys(metadata),
        e.1.metadata == pairs_map(metadata),
        among.contains(e.0),
        counted_so_far(facets, before, among, fields, metadata, metadata.len() as int),
    ensures
        counted_so_far(facets, before.push(e), among, fields, next, 0),
{
    let longer = before.push(e);
    assert(longer.drop_last() =~= before);
    assert forall|f: Seq<char>, t: Seq<char>| #[trigger]
        facet(facets, f, t) == (if field_asked(fields, f) {
            tally(longer, among, f, t)
        } else {
            0
        }) + if seen_in(next, 0, fields, f, t) {
            1int
        } else {
            0int
        } by {
        let seen = seen_in(metadata, metadata.len() as int, fields, f, t);
        assert(field_asked(fields, f) ==> (seen <==> has_text(e, among, f, t))) by {
            if seen {
                let k = choose|k: int|
                    0 <= k < metadata.len() && #[trigger] metadata[k] == (f, MetaView::Text(t));
                lemma_pairs_at(metadata, k);
            }
            if has_text(e, among, f, t) {
                assert(has_key(metadata, f));
                let k = choose|k: int| 0 <= k < metadata.len() && (#[trigger] metadata[k]).0 == f;
                lemma_pairs_at(metadata, k);
                assert(metadata[k] == (f, MetaView::Text(t)));
            }
        }
    }
}

/// Counts the texts in the metadata fields of the chunks among some: of the named
/// fields, or of all where none is named. What does not occur is not mentioned.
pub fn facet_counts(
    chunks: &IdMap<DocumentChunk>,
    among: &HashSet<u64>,
    fields: &Vec<String>,
) -> (r: StringMap<StringMap<u64>>)
    ensures
        forall|f: Seq<char>, t: Seq<char>| #[trigger]
            facet(r@, f, t) == if field_asked(text_views(fields@), f) {
                tally(chunks.pairs(), among@, f, t)
            } else {
                0
            },
        forall|f: Seq<char>| #[trigger]
            r@.contains_key(f) ==> exists|t: Seq<char>| #[trigger] r@[f].contains_key(t),
        forall|f: Seq<char>, t: Seq<char>|
            r@.contains_key(f) && #[trigger] r@[f].contains_key(t) ==> r@[f][t] > 0,
{
    let n: usize = chunks.len();
    let ghost pairs = chunks.pairs();
    let ghost asked = text_views(fields@);
    let mut out: StringMap<StringMap<u64>> = StringMap::new();
    let mut i: usize = 0;
    proof {
        assert(pairs.subrange(0, 0) =~= Seq::empty());
    }
    while i < n
        invariant
            n == pairs.len(),
            pairs == chunks.pairs(),
            asked == text_views(fields@),
            i <= n,
            counted_so_far(out@, pairs.subrange(0, i as int), among@, asked, Seq::empty(), 0),
            mentions_what_occurs(out@),
        decreases n - i,
    {
        let id: u64 = chunks.key_at(i);
        let chunk = chunks.value_at(i);
        let ghost before = pairs.subrange(0, i as int);
        let ghost e = pairs[i as int];
        proof {
            assert(pairs.subrange(0, i + 1) =~= before.push(e));
        }
        if among.contains(&id) {
            let _fields: usize = chunk.metadata.len();
            proof {
                assert(counted_so_far(out@, before, among@, asked, chunk.metadata.pairs(), 0));
            }
            count_chunk(&mut out, chunk, fields, Ghost(before), Ghost(among@));
            proof {
                lemma_next_chunk(
                    out@,
                    before,
                    e,
                    among@,
                    asked,
                    chunk.metadata.pairs(),
                    Seq::empty(),
                );
            }
        } else {
            proof {
                assert(before.push(e).drop_last() =~= before);
                assert(counted_so_far(out@, before.push(e), among@, asked, Seq::empty(), 0));
            }
        }
        i = i + 1;
    }
    proof {
        assert(pairs.subrange(0, pairs.len() as int) =~= pairs);
    }
    out
}

// ── Laws ────────────────────────────────────────────────────────────────

/// Batches add up: the facets of one batch and another are the sums of theirs.
pub proof fn law_facets_accumulate(
    a: Seq<(u64, ChunkView)>,
    b: Seq<(u64, ChunkView)>,
    among: Set<u64>,
    field: Seq<char>,
    text: Seq<char>,
)
    ensures
        tally(a + b, among, field, text) == tally(a, among, field, text) + tally(
            b,
            among,
            field,
            text,
        ),
    decreases b.len(),
{
    if b.len() == 0 {
        assert(a + b =~= a);
    } else {
        assert((a + b).drop_last() =~= a + b.drop_last());
        law_facets_accumulate(a, b.drop_last(), among, field, text);
    }
}

/// A chunk that is not to be counted is not counted: leaving it out of the chunks
/// changes nothing.
pub proof fn law_deleted_is_not_counted(
    chunks: Seq<(u64, ChunkView)>,
    i: int,
    among: Set<u64>,
    field: Seq<char>,
    text: Seq<char>,
)
    requires
        0 <= i < chunks.len(),
        !among.contains(chunks[i].0),
    ensures
        tally(chunks.remove(i), among, field, text) == tally(chunks, among, field, text),
{
    let a = chunks.subrange(0, i);
    let e = seq![chunks[i]];
    let b = chunks.subrange(i + 1, chunks.len() as int);
    assert(chunks =~= a + e + b);
    assert(chunks.remove(i) =~= a + b);
    law_facets_accumulate(a + e, b, among, field, text);
    law_facets_accumulate(a, e, among, field, text);
    law_facets_accumulate(a, b, among, field, text);
    reveal_with_fuel(tally, 2);
    assert(e.drop_last() =~= Seq::empty());
}

/// A facet counts chunks: one more chunk adds one to the count of a text in a field
/// exactly if it is among those to be counted and has that text in that field.
pub proof fn law_a_facet_counts_chunks(
    chunks: Seq<(u64, ChunkView)>,
    id: u64,
    c: ChunkView,
    among: Set<u64>,
    field: Seq<char>,
    text: Seq<char>,
)
    ensures
        tally(Seq::empty(), among, field, text) == 0,
        among.contains(id) && c.metadata.contains_key(field) && c.metadata[field] == MetaView::Text(
            text,
        ) ==> tally(chunks.push((id, c)), among, field, text) == tally(chunks, among, field, text)
            + 1,
        !among.contains(id) || !c.metadata.contains_key(field) || c.metadata[field]
            != MetaView::Text(text) ==> tally(chunks.push((id, c)), among, field, text) == tally(
            chunks,
            among,
            field,
            text,
        ),
{
    assert(chunks.push((id, c)).drop_last() =~= chunks);
}

/// Where fields are named, exactly these are counted; where none is, all are.
pub proof fn law_named_fields_are_counted(fields: Seq<Seq<char>>, field: Seq<char>)
    ensures
        field_asked(Seq::empty(), field),
        fields.len() > 0 ==> (field_asked(fields, field) <==> exists|i: int|
            0 <= i < fields.len() && fields[i] == field),
{
}

/// What facets say is what they hold.
pub proof fn law_a_facet_is_what_is_held(
    facets: Map<Seq<char>, Map<Seq<char>, u64>>,
    field: Seq<char>,
    text: Seq<char>,
    count: u64,
)
    ensures
        facets.contains_key(field) && facets[field].contains_key(text) && facets[field][text]
            == count ==> facet(facets, field, text) == count,
        !facets.contains_key(field) ==> facet(facets, field, text) == 0,
{
}

/// A field is listed only with a text, and a text only where some chunk has it.
pub proof fn law_listed_facets_occur(
    facets: Map<Seq<char>, Map<Seq<char>, u64>>,
    field: Seq<char>,
    text: Seq<char>,
)
    requires
        mentions_what_occurs(facets),
        facets.contains_key(field),
    ensures
        facets[field].contains_key(text) ==> facets[field][text] > 0,
        exists|t: Seq<char>| #[trigger] facets[field].contains_key(t),
{
}

} // verus!
