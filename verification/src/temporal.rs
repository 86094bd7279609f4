//! Segments of an asset by time.
//!
//! A segment covers the window from its `timerange_start_ms` to its
//! `timerange_end_ms`, both ends included. An instant is a segment whose two
//! ends are equal.
use crate::assoc::{lemma_filter_push, lookup};
use crate::duplicate::text_view;
use crate::models::{meta_number, number_view, ChunkView, DocumentChunk, MetaView};
use crate::number::{is_nan, num_le, num_lt, total_key, Number, INFINITY_BITS, SIGN_BIT};
use crate::sorting::{sort_by_rank, sorted_form};
use crate::string_map::StringMap;
use crate::text::text_eq;
use std::collections::HashSet;
use vstd::prelude::*;
use vstd::string::*;

verus! {

broadcast use vstd::std_specs::hash::group_hash_axioms;

/// The number in a metadata field of a chunk.
pub open spec fn time_field(c: ChunkView, key: Seq<char>, numbers: Map<Seq<char>, u64>) -> Option<
    u64,
> {
    match lookup(c.metadata, key) {
        Some(v) => meta_number(v, numbers),
        None => None,
    }
}

/// The window of a segment matches a time query. Without a query every segment
/// matches. A point query asks that the window hold the point; it goes before a
/// range query, which asks that the window and the range overlap. A range
/// without a bound is open on that side. A segment without a window matches no
/// query.
pub open spec fn in_window(
    c: ChunkView,
    time: Option<u64>,
    start: Option<u64>,
    end: Option<u64>,
    numbers: Map<Seq<char>, u64>,
) -> bool {
    if time is None && start is None && end is None {
        true
    } else {
        match (
            time_field(c, "timerange_start_ms"@, numbers),
            time_field(c, "timerange_end_ms"@, numbers),
        ) {
            (Some(s), Some(e)) => match time {
                Some(t) => num_le(s, t) && num_le(t, e),
                None => {
                    let hi = match end {
                        Some(x) => x,
                        None => INFINITY_BITS,
                    };
                    let lo = match start {
                        Some(x) => x,
                        None => (SIGN_BIT + INFINITY_BITS) as u64,
                    };
                    num_le(s, hi) && num_le(lo, e)
                },
            },
            _ => false,
        }
    }
}

fn read_time(chunk: &DocumentChunk, key: &str, numbers: &StringMap<Number>) -> (r: Option<Number>)
    ensures
        number_view(r) == time_field(chunk@, key@, numbers@),
{
    match chunk.metadata.get(key) {
        Some(v) => v.as_f64(numbers),
        None => None,
    }
}

/// Whether the window of a segment matches a time query. `numbers` gives the
/// numeric reading of the texts that spell a number.
pub fn segment_in_time_window(
    chunk: &DocumentChunk,
    time_ms: Option<Number>,
    time_start_ms: Option<Number>,
    time_end_ms: Option<Number>,
    numbers: &StringMap<Number>,
) -> (r: bool)
    ensures
        r == in_window(
            chunk@,
            number_view(time_ms),
            number_view(time_start_ms),
            number_view(time_end_ms),
            numbers@,
        ),
{
    if time_ms.is_none() && time_start_ms.is_none() && time_end_ms.is_none() {
        return true;
    }
    let s = match read_time(chunk, "timerange_start_ms", numbers) {
        Some(s) => s,
        None => {
            return false;
        },
    };
    let e = match read_time(chunk, "timerange_end_ms", numbers) {
        Some(e) => e,
        None => {
            return false;
        },
    };
    if let Some(t) = time_ms {
        return s.at_most(t) && t.at_most(e);
    }
    let lo = match time_start_ms {
        Some(x) => x,
        None => Number::neg_infinity(),
    };
    let hi = match time_end_ms {
        Some(x) => x,
        None => Number::infinity(),
    };
    s.at_most(hi) && lo.at_most(e)
}

/// The chunk is a segment of the asset, is not deleted, and matches the time
/// query.
pub open spec fn segment_matches(
    deleted: Set<u64>,
    asset: Seq<char>,
    time: Option<u64>,
    start: Option<u64>,
    end: Option<u64>,
    numbers: Map<Seq<char>, u64>,
) -> spec_fn(DocumentChunk) -> bool {
    |c: DocumentChunk|
        {
            &&& !deleted.contains(c.id)
            &&& c.doc_type@ == "segment"@
            &&& text_view(c.group_id) == Some(asset)
            &&& in_window(c@, time, start, end, numbers)
        }
}

/// What segments are sorted by: where the window starts; a segment that does not
/// say stands at positive infinity.
pub open spec fn start_rank(c: ChunkView, numbers: Map<Seq<char>, u64>) -> int {
    match time_field(c, "timerange_start_ms"@, numbers) {
        Some(s) => total_key(s),
        None => total_key(INFINITY_BITS),
    }
}

/// Segments with their ranks.
pub open spec fn by_start(s: Seq<DocumentChunk>, numbers: Map<Seq<char>, u64>) -> Seq<
    (i128, DocumentChunk),
> {
    Seq::new(s.len(), |i: int| (start_rank(s[i]@, numbers) as i128, s[i]))
}

/// The segments of an asset that match a time query, in the order in which their
/// windows start.
pub fn segments_at(
    chunks: Vec<DocumentChunk>,
    deleted: &HashSet<u64>,
    asset: &str,
    time_ms: Option<Number>,
    time_start_ms: Option<Number>,
    time_end_ms: Option<Number>,
    numbers: &StringMap<Number>,
) -> (r: Vec<DocumentChunk>)
    ensures
        sorted_form(
            by_start(
                chunks@.filter(
                    segment_matches(
                        deleted@,
                        asset@,
                        number_view(time_ms),
                        number_view(time_start_ms),
                        number_view(time_end_ms),
                        numbers@,
                    ),
                ),
                numbers@,
            ),
            by_start(r@, numbers@),
        ),
{
    let ghost all = chunks@;
    let ghost p = segment_matches(
        deleted@,
        asset@,
        number_view(time_ms),
        number_view(time_start_ms),
        number_view(time_end_ms),
        numbers@,
    );
    let mut ranked: Vec<(i128, DocumentChunk)> = Vec::new();
    let mut done: Ghost<int> = Ghost(0);
    proof {
        reveal(Seq::filter);
        assert(all.subrange(0, 0) =~= Seq::empty());
        assert(ranked@ =~= by_start(all.subrange(0, 0).filter(p), numbers@));
    }
    for c in it: chunks
        invariant
            it.seq() == all,
            done@ == it.index(),
            0 <= done@ <= all.len(),
            p == segment_matches(
                deleted@,
                asset@,
                number_view(time_ms),
                number_view(time_start_ms),
                number_view(time_end_ms),
                numbers@,
            ),
            ranked@ == by_start(all.subrange(0, done@).filter(p), numbers@),
    {
        let ghost shorter = all.subrange(0, done@);
        let ghost this = c;
        proof {
            assert(all.subrange(0, done@ + 1) =~= shorter.push(c));
            lemma_filter_push(shorter, c, p);
            done@ = done@ + 1;
        }
        let of_asset = match &c.group_id {
            Some(g) => text_eq(g.as_str(), asset),
            None => false,
        };
        if !deleted.contains(&c.id) && text_eq(c.doc_type.as_str(), "segment") && of_asset
            && segment_in_time_window(&c, time_ms, time_start_ms, time_end_ms, numbers) {
            let rank: i128 = match read_time(&c, "timerange_start_ms", numbers) {
                Some(s) => s.total_rank(),
                None => Number::infinity().total_rank(),
            };
            let ghost before = ranked@;
            ranked.push((rank, c));
            proof {
                assert(p(this));
                assert(ranked@ =~= by_start(shorter.filter(p).push(this), numbers@));
            }
        } else {
            proof {
                assert(!p(this));
            }
        }
    }
    proof {
        assert(all.subrange(0, all.len() as int) =~= all);
    }
    let ghost matching = ranked@;
    let sorted = sort_by_rank(ranked);
    let ghost s = sorted@;
    proof {
        assert forall|i: int| 0 <= i < s.len() implies (#[trigger] s[i]).0 == start_rank(
            s[i].1@,
            numbers@,
        ) by {
            crate::assoc::lemma_filter_contains(s, crate::sorting::of_rank(s[i].0), s[i]);
            crate::assoc::lemma_filter_contains(matching, crate::sorting::of_rank(s[i].0), s[i]);
            let k = choose|k: int| 0 <= k < matching.len() && matching[k] == s[i];
            assert(matching[k].0 == start_rank(matching[k].1@, numbers@));
        }
    }
    let mut out: Vec<DocumentChunk> = Vec::new();
    let mut at: Ghost<int> = Ghost(0);
    for e in it: sorted
        invariant
            it.seq() == s,
            at@ == it.index(),
            0 <= at@ <= s.len(),
            out@.len() == at@,
            forall|i: int| 0 <= i < at@ ==> #[trigger] out@[i] == s[i].1,
    {
        out.push(e.1);
        proof {
            at@ = at@ + 1;
        }
    }
    proof {
        assert(by_start(out@, numbers@) =~= s);
    }
    out
}

// ── Laws ────────────────────────────────────────────────────────────────

/// An instant matches the point query at its own time, and every range query
/// whose range holds that time.
pub proof fn law_instant_matches(
    c: ChunkView,
    at: u64,
    start: Option<u64>,
    end: Option<u64>,
    numbers: Map<Seq<char>, u64>,
)
    requires
        time_field(c, "timerange_start_ms"@, numbers) == Some(at),
        time_field(c, "timerange_end_ms"@, numbers) == Some(at),
        num_le(at, at),
        start is None || num_le(start->0, at),
        end is None || num_le(at, end->0),
    ensures
        in_window(c, Some(at), None, None, numbers),
        in_window(c, None, start, end, numbers),
{
}

/// A point query goes before a range query.
pub proof fn law_point_goes_first(
    c: ChunkView,
    time: u64,
    start: Option<u64>,
    end: Option<u64>,
    numbers: Map<Seq<char>, u64>,
)
    ensures
        in_window(c, Some(time), start, end, numbers) == in_window(
            c,
            Some(time),
            None,
            None,
            numbers,
        ),
{
}

/// A range query matches exactly the windows that overlap the range: a window that
/// starts after the range ends, or ends before it starts, is left out, and every other
/// one is found. A bound that is not given leaves nothing out.
pub proof fn law_range_is_overlap(
    c: ChunkView,
    start: Option<u64>,
    end: Option<u64>,
    numbers: Map<Seq<char>, u64>,
    s: u64,
    e: u64,
)
    requires
        time_field(c, "timerange_start_ms"@, numbers) == Some(s),
        time_field(c, "timerange_end_ms"@, numbers) == Some(e),
        start is Some || end is Some,
    ensures
        end is Some && num_lt(end->0, s) ==> !in_window(c, None, start, end, numbers),
        start is Some && num_lt(e, start->0) ==> !in_window(c, None, start, end, numbers),
        !is_nan(s) && !is_nan(e) && (end is None || num_le(s, end->0)) && (start is None || num_le(
            start->0,
            e,
        )) ==> in_window(c, None, start, end, numbers),
        is_nan(s) || is_nan(e) ==> !in_window(c, None, start, end, numbers),
{
}

/// A point query matches exactly the windows that hold the point, both ends included.
pub proof fn law_point_lies_in_window(
    c: ChunkView,
    t: u64,
    start: Option<u64>,
    end: Option<u64>,
    numbers: Map<Seq<char>, u64>,
    s: u64,
    e: u64,
)
    requires
        time_field(c, "timerange_start_ms"@, numbers) == Some(s),
        time_field(c, "timerange_end_ms"@, numbers) == Some(e),
    ensures
        num_lt(t, s) || num_lt(e, t) ==> !in_window(c, Some(t), start, end, numbers),
        num_le(s, t) && num_le(t, e) ==> in_window(c, Some(t), start, end, numbers),
        in_window(c, Some(t), start, end, numbers) ==> num_le(s, t) && num_le(t, e),
{
}

/// A segment without a whole window matches no query, and every segment matches where
/// none is made.
pub proof fn law_no_window_no_match(
    c: ChunkView,
    time: Option<u64>,
    start: Option<u64>,
    end: Option<u64>,
    numbers: Map<Seq<char>, u64>,
)
    ensures
        (time is Some || start is Some || end is Some) && (time_field(
            c,
            "timerange_start_ms"@,
            numbers,
        ) is None || time_field(c, "timerange_end_ms"@, numbers) is None) ==> !in_window(
            c,
            time,
            start,
            end,
            numbers,
        ),
        in_window(c, None, None, None, numbers),
{
}

/// A time field is the number that the chunk's metadata has under its name.
pub proof fn law_time_field_is_metadata(
    c: ChunkView,
    key: Seq<char>,
    numbers: Map<Seq<char>, u64>,
    n: u64,
)
    ensures
        !c.metadata.contains_key(key) ==> time_field(c, key, numbers) is None,
        c.metadata.contains_key(key) && c.metadata[key] == MetaView::Float(n) ==> time_field(
            c,
            key,
            numbers,
        ) == Some(n),
        c.metadata.contains_key(key) && c.metadata[key] is Bool ==> time_field(
            c,
            key,
            numbers,
        ) is None,
{
}

/// Only segments of the asset that are not deleted are found, and each of them that
/// matches the time query is.
pub proof fn law_segments_of_the_asset(
    c: DocumentChunk,
    deleted: Set<u64>,
    asset: Seq<char>,
    time: Option<u64>,
    start: Option<u64>,
    end: Option<u64>,
    numbers: Map<Seq<char>, u64>,
)
    ensures
        ({
            let found = segment_matches(deleted, asset, time, start, end, numbers)(c);
            &&& deleted.contains(c.id) ==> !found
            &&& c.doc_type@ != "segment"@ ==> !found
            &&& c.group_id is None ==> !found
            &&& c.group_id matches Some(g) ==> (g@ != asset ==> !found)
            &&& !in_window(c@, time, start, end, numbers) ==> !found
            &&& c.group_id matches Some(g) ==> (!deleted.contains(c.id) && c.doc_type@ == "segment"@
                && g@ == asset && in_window(c@, time, start, end, numbers) ==> found)
        }),
{
}

/// The segments found are in the order in which their windows start; one that does not
/// say where it starts comes after every one that starts at a finite time.
pub proof fn law_segments_are_in_time_order(
    found: Seq<DocumentChunk>,
    sorted: Seq<DocumentChunk>,
    numbers: Map<Seq<char>, u64>,
    i: int,
    j: int,
    a: u64,
)
    requires
        sorted_form(by_start(found, numbers), by_start(sorted, numbers)),
        0 <= i < j < sorted.len(),
        time_field(sorted[j]@, "timerange_start_ms"@, numbers) == Some(a),
        !is_nan(a),
    ensures
        time_field(sorted[i]@, "timerange_start_ms"@, numbers) matches Some(b) ==> !num_lt(a, b),
        time_field(sorted[i]@, "timerange_start_ms"@, numbers) is None ==> !num_lt(
            a,
            INFINITY_BITS,
        ),
{
    let s = by_start(sorted, numbers);
    assert(s[i].0 <= s[j].0);
}

} // verus!
