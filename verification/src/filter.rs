//! Metadata filters with operators.
//!
//! - exact match: `"department": "Legal"`
//! - range: `"timerange_start": {"gte": 2040.0}`
//! - contains: `"tags": {"contains": "sports"}`
//! - set membership: `"doc_type": {"in": ["segment", "flow"]}`
//!
//! The field `doc_type` reads the chunk's document type, not its metadata.
use crate::assoc::{has_key, lookup};
use crate::duplicate::{text_view, Duplicate};
use crate::id_map::{in_id_order, IdMap};
use crate::models::{
    meta_eq, meta_number, number_view, texts_contain, texts_view, ChunkView, DocumentChunk,
    FilterCondition, FilterValue, FilterView, MetaView, MetadataValue,
};
use crate::number::{num_le, num_lt, Number};
use crate::string_map::StringMap;
use crate::text::{own, text_eq};
use std::collections::HashSet;
use vstd::prelude::*;
use vstd::string::*;

verus! {

broadcast use vstd::std_specs::hash::group_hash_axioms;

/// The metadata that filters see: the chunk's own, with its document type
/// under `doc_type`.
pub open spec fn filter_fields(chunk: ChunkView) -> Map<Seq<char>, MetaView> {
    chunk.metadata.insert("doc_type"@, MetaView::Text(chunk.doc_type))
}

/// The metadata that filters see.
pub fn filter_meta(chunk: &DocumentChunk) -> (r: StringMap<MetadataValue>)
    ensures
        r@ == filter_fields(chunk@),
{
    let mut m = chunk.metadata.duplicate();
    m.insert(own("doc_type"), MetadataValue::String(chunk.doc_type.clone()));
    m
}

/// A number lies within optional bounds. A number that is not comparable with a
/// bound is not excluded by it.
pub open spec fn within(n: u64, gte: Option<u64>, lte: Option<u64>) -> bool {
    &&& gte matches Some(g) ==> !num_lt(n, g)
    &&& lte matches Some(l) ==> !num_lt(l, n)
}

/// A condition holds of a field's value, or of its absence.
pub open spec fn condition_holds(
    val: Option<MetaView>,
    gte: Option<u64>,
    lte: Option<u64>,
    contains: Option<Seq<char>>,
    in_values: Option<Seq<Seq<char>>>,
    numbers: Map<Seq<char>, u64>,
) -> bool {
    &&& gte is Some || lte is Some ==> val is Some && (match meta_number(val->0, numbers) {
        Some(n) => within(n, gte, lte),
        None => false,
    })
    &&& contains matches Some(target) ==> match val {
        Some(MetaView::TextList(l)) => l.contains(target),
        Some(MetaView::Text(s)) => s == target,
        _ => false,
    }
    &&& in_values matches Some(allowed) ==> match val {
        Some(MetaView::Text(s)) => allowed.contains(s),
        _ => false,
    }
}

/// A filter holds of a field's value, or of its absence.
pub open spec fn filter_holds(
    val: Option<MetaView>,
    filter: FilterView,
    numbers: Map<Seq<char>, u64>,
) -> bool {
    match filter {
        FilterView::Exact(expected) => val is Some && meta_eq(val->0, expected),
        FilterView::Condition { gte, lte, contains, in_values } => condition_holds(
            val,
            gte,
            lte,
            contains,
            in_values,
            numbers,
        ),
    }
}

/// Every filter holds of the chunk.
pub open spec fn chunk_matches(
    chunk: ChunkView,
    filters: Map<Seq<char>, FilterView>,
    numbers: Map<Seq<char>, u64>,
) -> bool {
    forall|k: Seq<char>| #[trigger]
        filters.contains_key(k) ==> filter_holds(
            lookup(filter_fields(chunk), k),
            filters[k],
            numbers,
        )
}

/// Whether a chunk passes every filter. `numbers` gives the numeric reading of
/// the texts that spell a number.
pub fn matches_filters(
    chunk: &DocumentChunk,
    filters: &StringMap<FilterValue>,
    numbers: &StringMap<Number>,
) -> (r: bool)
    ensures
        r == chunk_matches(chunk@, filters@, numbers@),
{
    let n: usize = filters.len();
    let mut i: usize = 0;
    while i < n
        invariant
            n == filters.pairs().len(),
            i <= n,
            filters@ == crate::assoc::pairs_map(filters.pairs()),
            forall|j: int|
                0 <= j < i ==> filter_holds(
                    lookup(filter_fields(chunk@), #[trigger] filters.key(j)),
                    filters@[filters.key(j)],
                    numbers@,
                ),
        decreases n - i,
    {
        let key = filters.key_at(i);
        let filter = filters.value_at(i);
        let doc_type: MetadataValue;
        let val: Option<&MetadataValue> = if text_eq(key.as_str(), "doc_type") {
            doc_type = MetadataValue::String(chunk.doc_type.clone());
            Some(&doc_type)
        } else {
            chunk.metadata.get(key.as_str())
        };
        let holds: bool = match filter {
            FilterValue::Exact(expected) => match val {
                Some(v) => v.equals(expected),
                None => false,
            },
            FilterValue::Condition(cond) => eval_condition(val, cond, numbers),
        };
        if !holds {
            proof {
                assert(filters@.contains_key(filters.key(i as int)));
            }
            return false;
        }
        i = i + 1;
    }
    proof {
        assert forall|k: Seq<char>| #[trigger] filters@.contains_key(k) implies filter_holds(
            lookup(filter_fields(chunk@), k),
            filters@[k],
            numbers@,
        ) by {
            let j = choose|j: int|
                0 <= j < filters.pairs().len() && (#[trigger] filters.pairs()[j]).0 == k;
            assert(filters.key(j) == k);
        }
    }
    true
}

/// What an optional value says.
pub open spec fn meta_view(o: Option<&MetadataValue>) -> Option<MetaView> {
    match o {
        Some(v) => Some(v@),
        None => None,
    }
}

/// Whether a condition holds of a field's value, or of its absence.
pub fn eval_condition(
    val: Option<&MetadataValue>,
    cond: &FilterCondition,
    numbers: &StringMap<Number>,
) -> (r: bool)
    ensures
        r == condition_holds(
            meta_view(val),
            number_view(cond.gte),
            number_view(cond.lte),
            text_view(cond.contains),
            texts_view(cond.in_values),
            numbers@,
        ),
{
    if cond.gte.is_some() || cond.lte.is_some() {
        let n: Option<Number> = match val {
            Some(v) => v.as_f64(numbers),
            None => None,
        };
        match n {
            None => {
                return false;
            },
            Some(n) => {
                if let Some(g) = cond.gte {
                    if n.less(g) {
                        return false;
                    }
                }
                if let Some(l) = cond.lte {
                    if l.less(n) {
                        return false;
                    }
                }
            },
        }
    }
    if let Some(target) = &cond.contains {
        match val {
            Some(MetadataValue::StringList(list)) => {
                if !texts_contain(list, target.as_str()) {
                    return false;
                }
            },
            Some(MetadataValue::String(s)) => {
                if !text_eq(s.as_str(), target.as_str()) {
                    return false;
                }
            },
            _ => {
                return false;
            },
        }
    }
    if let Some(allowed) = &cond.in_values {
        match val {
            Some(MetadataValue::String(s)) => {
                if !texts_contain(allowed, s.as_str()) {
                    return false;
                }
            },
            _ => {
                return false;
            },
        }
    }
    true
}

/// The live chunks that pass every filter, in increasing order of their ids.
/// Searches and deletes by filter both go by this, so that they agree on what a
/// filter matches.
pub fn eligible_ids(
    chunks: &IdMap<DocumentChunk>,
    live: &HashSet<u64>,
    filters: &StringMap<FilterValue>,
    numbers: &StringMap<Number>,
) -> (r: Vec<u64>)
    ensures
        forall|i: int, j: int| 0 <= i < j < r@.len() ==> #[trigger] r@[i] < #[trigger] r@[j],
        forall|id: u64| #[trigger]
            r@.contains(id) <==> is_eligible(id, chunks@, live@, filters@, numbers@),
{
    let n: usize = chunks.len();
    let ghost pairs = chunks.pairs();
    let mut out: Vec<u64> = Vec::new();
    let mut i: usize = 0;
    while i < n
        invariant
            n == pairs.len(),
            pairs == chunks.pairs(),
            in_id_order(pairs),
            i <= n,
            forall|a: int, b: int|
                0 <= a < b < out@.len() ==> #[trigger] out@[a] < #[trigger] out@[b],
            forall|a: int| 0 <= a < out@.len() ==> i == 0 || #[trigger] out@[a] <= pairs[i - 1].0,
            i == 0 ==> out@.len() == 0,
            forall|a: int| 0 <= a < out@.len() ==> is_eligible(#[trigger] out@[a], chunks@, live@, filters@, numbers@),
            forall|k: int|
                0 <= k < i && is_eligible((#[trigger] pairs[k]).0, chunks@, live@, filters@, numbers@)
                    ==> out@.contains(pairs[k].0),
        decreases n - i,
    {
        let id: u64 = chunks.key_at(i);
        let chunk = chunks.value_at(i);
        let ghost before = out@;
        if live.contains(&id) && matches_filters(chunk, filters, numbers) {
            out.push(id);
            proof {
                assert(out@[before.len() as int] == id);
                assert(out@.contains(id));
            }
        }
        proof {
            assert forall|k: int|
                0 <= k < i + 1 && is_eligible((#[trigger] pairs[k]).0, chunks@, live@, filters@, numbers@)
                    implies out@.contains(pairs[k].0) by {
                if k < i {
                    let a = choose|a: int| 0 <= a < before.len() && before[a] == pairs[k].0;
                    assert(out@[a] == pairs[k].0);
                }
            }
        }
        i = i + 1;
    }
    proof {
        assert forall|id: u64| #[trigger]
            out@.contains(id) <==> is_eligible(id, chunks@, live@, filters@, numbers@) by {
            if is_eligible(id, chunks@, live@, filters@, numbers@) {
                assert(has_key(pairs, id));
                let k = choose|k: int| 0 <= k < pairs.len() && (#[trigger] pairs[k]).0 == id;
                assert(out@.contains(pairs[k].0));
            }
        }
    }
    out
}

/// The chunk is live and passes every filter.
pub open spec fn is_eligible(
    id: u64,
    chunks: Map<u64, ChunkView>,
    live: Set<u64>,
    filters: Map<Seq<char>, FilterView>,
    numbers: Map<Seq<char>, u64>,
) -> bool {
    live.contains(id) && chunks.contains_key(id) && chunk_matches(chunks[id], filters, numbers)
}

// ── Laws ────────────────────────────────────────────────────────────────

/// Filters are a conjunction: a chunk passes with one more filter exactly when
/// it passes without it and the filter holds of the field.
pub proof fn law_filters_conjoin(
    chunk: ChunkView,
    filters: Map<Seq<char>, FilterView>,
    key: Seq<char>,
    filter: FilterView,
    numbers: Map<Seq<char>, u64>,
)
    requires
        !filters.contains_key(key),
    ensures
        chunk_matches(chunk, filters.insert(key, filter), numbers) <==> chunk_matches(
            chunk,
            filters,
            numbers,
        ) && filter_holds(lookup(filter_fields(chunk), key), filter, numbers),
{
    let more = filters.insert(key, filter);
    assert(more.contains_key(key));
    assert(forall|k: Seq<char>| #[trigger] filters.contains_key(k) ==> more.contains_key(k));
    if chunk_matches(chunk, more, numbers) {
        assert forall|k: Seq<char>| #[trigger] filters.contains_key(k) implies filter_holds(
            lookup(filter_fields(chunk), k),
            filters[k],
            numbers,
        ) by {
            assert(more.contains_key(k) && more[k] == filters[k]);
        }
    }
}

/// The document type decides the field `doc_type`, whatever the metadata says
/// under that name.
pub proof fn law_doc_type_wins(chunk: ChunkView)
    ensures
        lookup(filter_fields(chunk), "doc_type"@) == Some(MetaView::Text(chunk.doc_type)),
{
}

/// Bounds exclude: a number above the upper bound, or below the lower one, does not
/// pass, whatever else the condition asks; and a value without a number passes no bound.
pub proof fn law_bounds_exclude(
    val: Option<MetaView>,
    gte: Option<u64>,
    lte: Option<u64>,
    contains: Option<Seq<char>>,
    in_values: Option<Seq<Seq<char>>>,
    numbers: Map<Seq<char>, u64>,
    n: u64,
)
    requires
        val is Some,
        meta_number(val->0, numbers) == Some(n),
    ensures
        lte is Some && num_lt(lte->0, n) ==> !condition_holds(
            val,
            gte,
            lte,
            contains,
            in_values,
            numbers,
        ),
        gte is Some && num_lt(n, gte->0) ==> !condition_holds(
            val,
            gte,
            lte,
            contains,
            in_values,
            numbers,
        ),
{
}

/// Bounds that a number respects do not exclude it.
pub proof fn law_bounds_admit(
    val: Option<MetaView>,
    gte: Option<u64>,
    lte: Option<u64>,
    numbers: Map<Seq<char>, u64>,
    n: u64,
)
    requires
        val is Some,
        meta_number(val->0, numbers) == Some(n),
        gte is None || num_le(gte->0, n),
        lte is None || num_le(n, lte->0),
    ensures
        condition_holds(val, gte, lte, None, None, numbers),
{
}

/// A field that is missing, or that is not a number, passes no bound; one that is
/// missing passes no operator at all.
pub proof fn law_missing_passes_nothing(
    val: Option<MetaView>,
    gte: Option<u64>,
    lte: Option<u64>,
    contains: Option<Seq<char>>,
    in_values: Option<Seq<Seq<char>>>,
    expected: MetaView,
    numbers: Map<Seq<char>, u64>,
)
    ensures
        (gte is Some || lte is Some) && (val is None || meta_number(val->0, numbers) is None)
            ==> !condition_holds(val, gte, lte, contains, in_values, numbers),
        val is None && (contains is Some || in_values is Some) ==> !condition_holds(
            val,
            gte,
            lte,
            contains,
            in_values,
            numbers,
        ),
        val is None ==> !filter_holds(val, FilterView::Exact(expected), numbers),
{
}

/// `contains` asks for one of a list of texts, or for the text itself, whatever else
/// the condition asks.
pub proof fn law_contains_is_membership(
    val: MetaView,
    gte: Option<u64>,
    lte: Option<u64>,
    target: Seq<char>,
    in_values: Option<Seq<Seq<char>>>,
    numbers: Map<Seq<char>, u64>,
)
    ensures
        condition_holds(Some(val), gte, lte, Some(target), in_values, numbers) ==> (
        val matches MetaView::TextList(l) && exists|i: int| 0 <= i < l.len() && l[i] == target) || val
            == MetaView::Text(target),
        condition_holds(Some(val), None, None, Some(target), None, numbers) <==> (
        val matches MetaView::TextList(l) && exists|i: int| 0 <= i < l.len() && l[i] == target) || val
            == MetaView::Text(target),
{
}

/// `in` asks that the text be one of those named, whatever else the condition asks.
pub proof fn law_in_is_membership(
    val: MetaView,
    gte: Option<u64>,
    lte: Option<u64>,
    contains: Option<Seq<char>>,
    allowed: Seq<Seq<char>>,
    numbers: Map<Seq<char>, u64>,
)
    ensures
        condition_holds(Some(val), gte, lte, contains, Some(allowed), numbers) ==> exists|i: int|
            0 <= i < allowed.len() && val == MetaView::Text(#[trigger] allowed[i]),
        condition_holds(Some(val), None, None, None, Some(allowed), numbers) <==> exists|i: int|
            0 <= i < allowed.len() && val == MetaView::Text(#[trigger] allowed[i]),
{
    if val is Text && allowed.contains(val->Text_0) {
        let i = choose|i: int| 0 <= i < allowed.len() && allowed[i] == val->Text_0;
        assert(val == MetaView::Text(allowed[i]));
    }
    if exists|i: int| 0 <= i < allowed.len() && val == MetaView::Text(#[trigger] allowed[i]) {
        let i = choose|i: int| 0 <= i < allowed.len() && val == MetaView::Text(#[trigger] allowed[i]);
        assert(allowed.contains(allowed[i]));
    }
}

/// Every operator of a condition must hold: a condition holds exactly when each of its
/// operators holds alone.
pub proof fn law_operators_conjoin(
    val: Option<MetaView>,
    gte: Option<u64>,
    lte: Option<u64>,
    contains: Option<Seq<char>>,
    in_values: Option<Seq<Seq<char>>>,
    numbers: Map<Seq<char>, u64>,
)
    ensures
        condition_holds(val, gte, lte, contains, in_values, numbers) <==> {
            &&& condition_holds(val, gte, None, None, None, numbers)
            &&& condition_holds(val, None, lte, None, None, numbers)
            &&& condition_holds(val, None, None, contains, None, numbers)
            &&& condition_holds(val, None, None, None, in_values, numbers)
        },
        condition_holds(val, None, None, None, None, numbers),
{
}

/// An exact filter holds of a value of the same kind that is equal to it, and of no
/// other: texts, truth values and integers equal themselves only.
pub proof fn law_exact_is_equality(val: MetaView, expected: MetaView, numbers: Map<Seq<char>, u64>)
    ensures
        !(expected is Float) ==> (filter_holds(Some(val), FilterView::Exact(expected), numbers)
            <==> val == expected),
        expected matches MetaView::Float(b) ==> (filter_holds(
            Some(val),
            FilterView::Exact(expected),
            numbers,
        ) <==> (val matches MetaView::Float(a) && num_le(a, b) && num_le(b, a))),
{
}

/// A chunk that passes the filters passes each of them on the field it names: the
/// chunk's metadata, or its document type for `doc_type`.
pub proof fn law_every_filter_counts(
    chunk: ChunkView,
    filters: Map<Seq<char>, FilterView>,
    numbers: Map<Seq<char>, u64>,
    key: Seq<char>,
)
    requires
        filters.contains_key(key),
        chunk_matches(chunk, filters, numbers),
    ensures
        key == "doc_type"@ ==> filter_holds(
            Some(MetaView::Text(chunk.doc_type)),
            filters[key],
            numbers,
        ),
        key != "doc_type"@ && chunk.metadata.contains_key(key) ==> filter_holds(
            Some(chunk.metadata[key]),
            filters[key],
            numbers,
        ),
        key != "doc_type"@ && !chunk.metadata.contains_key(key) ==> filter_holds(
            None,
            filters[key],
            numbers,
        ),
{
}

/// Without filters every chunk passes; and what is eligible is live, stored and passes.
pub proof fn law_eligible_is_live_and_passes(
    id: u64,
    chunks: Map<u64, ChunkView>,
    live: Set<u64>,
    filters: Map<Seq<char>, FilterView>,
    numbers: Map<Seq<char>, u64>,
)
    ensures
        is_eligible(id, chunks, live, filters, numbers) ==> live.contains(id)
            && chunks.contains_key(id) && chunk_matches(chunks[id], filters, numbers),
        live.contains(id) && chunks.contains_key(id) ==> is_eligible(
            id,
            chunks,
            live,
            Map::empty(),
            numbers,
        ),
        live.contains(id) && chunks.contains_key(id) && chunk_matches(chunks[id], filters, numbers)
            ==> is_eligible(id, chunks, live, filters, numbers),
{
}

} // verus!
