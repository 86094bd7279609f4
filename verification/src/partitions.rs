//! Tenant-partitioned collections.
//!
//! A partition is a full internal collection with a namespace of its own. The
//! parent holds the configuration and the id allocator; chunks live in the
//! partitions only. This module names partitions, groups an ingest batch by
//! partition, and finds the partitions that a filtered request is for.
use crate::assoc::{lemma_filter_push, lookup};
use crate::duplicate::{duplicate_texts, text_views};
use crate::errors::{failure, EngineError, ErrorView};
use crate::models::{FilterValue, FilterView, IngestChunk, MetaView, MetadataValue};
use crate::names::valid_name;
use crate::string_map::StringMap;
use crate::text::{
    all_name_chars, contains_text, decimal, decimal_text, find_text, first_occurrence, is_name_char,
    occurs_at, own, text_contains,
};
use vstd::prelude::*;
use vstd::string::*;
use vstd::utf8::encode_utf8;

verus! {

/// Stands between the parent's name and the partition value. No collection of
/// a user may have it in its name.
pub const PART_SEP: &'static str = "--part--";

/// The most partitions that one request may go to.
pub const MAX_SEARCH_FANOUT: usize = 16;

/// The separator's characters.
pub open spec fn separator() -> Seq<char> {
    PART_SEP@
}

/// The namespace of one partition.
pub open spec fn partition_name(parent: Seq<char>, pval: Seq<char>) -> Seq<char> {
    parent + separator() + pval
}

/// The parent that a namespace names: what stands before the first separator.
pub open spec fn parent_name(ns: Seq<char>) -> Option<Seq<char>> {
    if contains_text(ns, separator()) {
        Some(ns.subrange(0, choose|i: int| first_occurrence(ns, separator(), i)))
    } else {
        None
    }
}

/// The namespace whose allocator hands out the ids of `ns`.
pub open spec fn allocator_name(ns: Seq<char>) -> Seq<char> {
    match parent_name(ns) {
        Some(p) => p,
        None => ns,
    }
}

proof fn lemma_first_unique(hay: Seq<char>, needle: Seq<char>, i: int, j: int)
    requires
        first_occurrence(hay, needle, i),
        first_occurrence(hay, needle, j),
    ensures
        i == j,
{
    if i < j {
        assert(occurs_at(hay, needle, i));
    } else if j < i {
        assert(occurs_at(hay, needle, j));
    }
}

/// The namespace of one partition of a parent collection.
pub fn partition_ns(parent: &str, pval: &str) -> (r: String)
    ensures
        r@ == partition_name(parent@, pval@),
{
    let mut s = own(parent);
    s.append(PART_SEP);
    s.append(pval);
    s
}

/// Whether a namespace is a partition.
pub fn is_partition_ns(ns: &str) -> (r: bool)
    ensures
        r == contains_text(ns@, separator()),
{
    text_contains(ns, PART_SEP)
}

/// The parent collection of a partition, nothing for any other namespace.
pub fn parent_of(ns: &str) -> (r: Option<&str>)
    ensures
        r is Some <==> parent_name(ns@) is Some,
        r matches Some(p) ==> parent_name(ns@) == Some(p@),
{
    match find_text(ns, PART_SEP) {
        Some(i) => {
            proof {
                let j = choose|j: int| first_occurrence(ns@, separator(), j);
                lemma_first_unique(ns@, separator(), i as int, j);
            }
            Some(ns.substring_char(0, i))
        },
        None => None,
    }
}

/// The namespace whose id allocator a collection draws from: partitions share
/// their parent's, so that ids are unique in the whole collection.
pub fn alloc_ns(ns: &str) -> (r: &str)
    ensures
        r@ == allocator_name(ns@),
{
    match parent_of(ns) {
        Some(p) => p,
        None => ns,
    }
}

/// The error for a partition value, or nothing when the value is good: letters,
/// digits and hyphens, 1 to 64 bytes, without the separator.
pub open spec fn partition_value_error(v: Seq<char>) -> Option<ErrorView> {
    if !valid_name(v) || encode_utf8(v).len() > 64 {
        Some(
            failure(
                "partition value '"@ + v
                    + "' is invalid: use letters, digits, and hyphens (max 64 chars)"@,
            ),
        )
    } else if contains_text(v, separator()) {
        Some(failure("partition value '"@ + v + "' must not contain '"@ + separator() + "'"@))
    } else {
        None
    }
}

/// Accepts a partition value that can be part of a namespace.
pub fn validate_partition_value(v: &str) -> (r: Result<(), EngineError>)
    ensures
        r is Ok <==> partition_value_error(v@) is None,
        r matches Err(e) ==> partition_value_error(v@) == Some(e@),
{
    if v.is_empty() || v.as_bytes().len() > 64 || !all_name_chars(v) {
        let mut s = own("partition value '");
        s.append(v);
        s.append("' is invalid: use letters, digits, and hyphens (max 64 chars)");
        return Err(EngineError::Failed(s));
    }
    if text_contains(v, PART_SEP) {
        let mut s = own("partition value '");
        s.append(v);
        s.append("' must not contain '");
        s.append(PART_SEP);
        s.append("'");
        return Err(EngineError::Failed(s));
    }
    Ok(())
}

/// The partition that a chunk goes to, or the error that it has none.
pub open spec fn chunk_partition(chunk: IngestChunk, field: Seq<char>) -> Result<
    Seq<char>,
    ErrorView,
> {
    let meta = chunk.metadata@;
    if !meta.contains_key(field) {
        Err(
            failure(
                "chunk '"@ + chunk.file_id@ + "' is missing partition field '"@ + field
                    + "' (this collection is partitioned by it)"@,
            ),
        )
    } else {
        match meta[field] {
            MetaView::Text(v) => match partition_value_error(v) {
                Some(e) => Err(e),
                None => Ok(v),
            },
            _ => Err(
                failure(
                    "chunk '"@ + chunk.file_id@ + "': partition field '"@ + field
                        + "' must be a string"@,
                ),
            ),
        }
    }
}

/// The partition value of a chunk.
fn chunk_partition_value(chunk: &IngestChunk, field: &str) -> (r: Result<String, EngineError>)
    ensures
        r matches Ok(v) ==> chunk_partition(*chunk, field@) == Ok::<Seq<char>, ErrorView>(v@),
        r matches Err(e) ==> chunk_partition(*chunk, field@) == Err::<Seq<char>, ErrorView>(e@),
{
    let v: String = match chunk.metadata.get(field) {
        Some(MetadataValue::String(s)) => s.clone(),
        Some(_) => {
            let mut s = own("chunk '");
            s.append(chunk.file_id.as_str());
            s.append("': partition field '");
            s.append(field);
            s.append("' must be a string");
            return Err(EngineError::Failed(s));
        },
        None => {
            let mut s = own("chunk '");
            s.append(chunk.file_id.as_str());
            s.append("' is missing partition field '");
            s.append(field);
            s.append("' (this collection is partitioned by it)");
            return Err(EngineError::Failed(s));
        },
    };
    match validate_partition_value(v.as_str()) {
        Ok(()) => Ok(v),
        Err(e) => Err(e),
    }
}

/// The chunks of a batch that go to partition `v`, in the order of the batch.
pub open spec fn partition_members(chunks: Seq<IngestChunk>, field: Seq<char>, v: Seq<char>) -> Seq<
    IngestChunk,
> {
    chunks.filter(|c: IngestChunk| chunk_partition(c, field) == Ok::<Seq<char>, ErrorView>(v))
}

/// A batch split by partition: one group for each value that occurs, holding
/// its chunks in the order of the batch.
pub open spec fn grouped(
    chunks: Seq<IngestChunk>,
    field: Seq<char>,
    groups: Map<Seq<char>, Seq<IngestChunk>>,
) -> bool {
    &&& forall|v: Seq<char>| #[trigger]
        groups.contains_key(v) <==> exists|i: int|
            0 <= i < chunks.len() && chunk_partition(#[trigger] chunks[i], field) == Ok::<
                Seq<char>,
                ErrorView,
            >(v)
    &&& forall|v: Seq<char>| #[trigger]
        groups.contains_key(v) ==> groups[v] == partition_members(chunks, field, v)
}

/// Splits an ingest batch by the partition value of its chunks. The first chunk
/// without a usable value decides the error.
pub fn group_by_partition(field: &str, chunks: Vec<IngestChunk>) -> (r: Result<
    StringMap<Vec<IngestChunk>>,
    EngineError,
>)
    ensures
        r is Ok <==> forall|i: int|
            0 <= i < chunks@.len() ==> chunk_partition(#[trigger] chunks@[i], field@) is Ok,
        r matches Ok(g) ==> grouped(chunks@, field@, g@),
        r matches Err(e) ==> exists|i: int|
            0 <= i < chunks@.len() && chunk_partition(#[trigger] chunks@[i], field@) == Err::<
                Seq<char>,
                ErrorView,
            >(e@) && forall|j: int|
                0 <= j < i ==> chunk_partition(#[trigger] chunks@[j], field@) is Ok,
{
    let mut groups: StringMap<Vec<IngestChunk>> = StringMap::new();
    let ghost all = chunks@;
    let mut done: Ghost<int> = Ghost(0);
    proof {
        assert(all.subrange(0, 0) =~= Seq::<IngestChunk>::empty());
    }
    for chunk in it: chunks
        invariant
            it.seq() == all,
            done@ == it.index(),
            0 <= done@ <= all.len(),
            forall|j: int|
                0 <= j < done@ ==> chunk_partition(#[trigger] all[j], field@) is Ok,
            grouped(all.subrange(0, done@), field@, groups@),
    {
        proof {
            assert(chunk == all[done@]);
        }
        let pval = match chunk_partition_value(&chunk, field) {
            Ok(v) => v,
            Err(e) => {
                proof {
                    assert(chunk_partition(all[done@], field@) == Err::<Seq<char>, ErrorView>(e@));
                }
                return Err(e);
            },
        };
        let ghost before = groups@;
        let mut group: Vec<IngestChunk> = match groups.remove(pval.as_str()) {
            Some(g) => g,
            None => Vec::new(),
        };
        group.push(chunk);
        groups.insert(pval, group);
        proof {
            let prefix = all.subrange(0, done@);
            let longer = all.subrange(0, done@ + 1);
            assert(longer =~= prefix.push(chunk));
            assert forall|v: Seq<char>|
                partition_members(longer, field@, v) == (if v == pval@ {
                    partition_members(prefix, field@, v).push(chunk)
                } else {
                    partition_members(prefix, field@, v)
                }) by {
                lemma_filter_push(
                    prefix,
                    chunk,
                    |c: IngestChunk|
                        chunk_partition(c, field@) == Ok::<Seq<char>, ErrorView>(v),
                );
            }
            if !before.contains_key(pval@) {
                lemma_no_members(prefix, field@, pval@);
            }
            assert forall|v: Seq<char>| #[trigger]
                groups@.contains_key(v) <==> exists|i: int|
                    0 <= i < longer.len() && chunk_partition(#[trigger] longer[i], field@) == Ok::<
                        Seq<char>,
                        ErrorView,
                    >(v) by {
                if groups@.contains_key(v) {
                    if v == pval@ {
                        assert(chunk_partition(longer[done@], field@) == Ok::<
                            Seq<char>,
                            ErrorView,
                        >(v));
                    } else {
                        assert(before.contains_key(v));
                        let i = choose|i: int|
                            0 <= i < prefix.len() && chunk_partition(#[trigger] prefix[i], field@)
                                == Ok::<Seq<char>, ErrorView>(v);
                        assert(longer[i] == prefix[i]);
                    }
                }
                if exists|i: int|
                    0 <= i < longer.len() && chunk_partition(#[trigger] longer[i], field@) == Ok::<
                        Seq<char>,
                        ErrorView,
                    >(v) {
                    let i = choose|i: int|
                        0 <= i < longer.len() && chunk_partition(#[trigger] longer[i], field@)
                            == Ok::<Seq<char>, ErrorView>(v);
                    if i < done@ {
                        assert(prefix[i] == longer[i]);
                        assert(before.contains_key(v));
                    }
                }
            }
            done@ = done@ + 1;
        }
    }
    proof {
        assert(all.subrange(0, all.len() as int) =~= all);
    }
    Ok(groups)
}

proof fn lemma_no_members(s: Seq<IngestChunk>, field: Seq<char>, v: Seq<char>)
    requires
        forall|i: int|
            0 <= i < s.len() ==> chunk_partition(#[trigger] s[i], field) != Ok::<
                Seq<char>,
                ErrorView,
            >(v),
    ensures
        partition_members(s, field, v) == Seq::<IngestChunk>::empty(),
    decreases s.len(),
{
    reveal(Seq::filter);
    if s.len() > 0 {
        assert forall|i: int| 0 <= i < s.drop_last().len() implies chunk_partition(
            #[trigger] s.drop_last()[i],
            field,
        ) != Ok::<Seq<char>, ErrorView>(v) by {
            assert(s.drop_last()[i] == s[i]);
        }
        lemma_no_members(s.drop_last(), field, v);
        assert(chunk_partition(s[s.len() - 1], field) != Ok::<Seq<char>, ErrorView>(v));
    }
}

/// The values that a filter on the partition field names: an exact text, or the
/// members of a non-empty set. Any other filter names none.
pub open spec fn named_values(filter: Option<FilterView>) -> Option<Seq<Seq<char>>> {
    match filter {
        Some(FilterView::Exact(MetaView::Text(s))) => Some(seq![s]),
        Some(FilterView::Condition { gte, lte, contains, in_values }) => match in_values {
            Some(vs) => if vs.len() > 0 {
                Some(vs)
            } else {
                None
            },
            None => None,
        },
        _ => None,
    }
}

/// The error for a request that names no partition.
pub open spec fn unrouted(field: Seq<char>) -> ErrorView {
    failure(
        "this collection is partitioned by '"@ + field + "': include filters."@ + field
            + " (exact value, or {\"in\": [...]} for up to "@ + decimal(16) + " partitions)"@,
    )
}

/// The error for a request that names too many partitions.
pub open spec fn too_many_partitions(field: Seq<char>, n: nat) -> ErrorView {
    failure(
        "filters."@ + field + " names "@ + decimal(n) + " partitions; max fan-out is "@ + decimal(
            16,
        ),
    )
}

/// Where a filtered request goes: the named values when there are 1 to 16 of
/// them and each is valid, else the first error.
pub open spec fn routing(
    field: Seq<char>,
    filters: Map<Seq<char>, FilterView>,
    r: Result<Seq<Seq<char>>, ErrorView>,
) -> bool {
    match named_values(lookup(filters, field)) {
        None => r == Err::<Seq<Seq<char>>, ErrorView>(unrouted(field)),
        Some(vs) => if vs.len() > 16 {
            r == Err::<Seq<Seq<char>>, ErrorView>(too_many_partitions(field, vs.len()))
        } else {
            match r {
                Ok(out) => out == vs && forall|i: int|
                    0 <= i < vs.len() ==> partition_value_error(#[trigger] vs[i]) is None,
                Err(e) => exists|i: int|
                    0 <= i < vs.len() && partition_value_error(#[trigger] vs[i]) == Some(e)
                        && forall|j: int|
                        0 <= j < i ==> partition_value_error(#[trigger] vs[j]) is None,
            }
        },
    }
}

/// What a result says, its texts and its error taken by their views.
pub open spec fn values_view(r: Result<Vec<String>, EngineError>) -> Result<
    Seq<Seq<char>>,
    ErrorView,
> {
    match r {
        Ok(v) => Ok(text_views(v@)),
        Err(e) => Err(e@),
    }
}

fn unrouted_error(field: &str) -> (r: EngineError)
    ensures
        r@ == unrouted(field@),
{
    let mut s = own("this collection is partitioned by '");
    s.append(field);
    s.append("': include filters.");
    s.append(field);
    s.append(" (exact value, or {\"in\": [...]} for up to ");
    s.append(decimal_text(16).as_str());
    s.append(" partitions)");
    EngineError::Failed(s)
}

/// The partition values that a filtered request is for. An exact value goes to
/// one partition, a set to up to [`MAX_SEARCH_FANOUT`]; a request without
/// either is refused.
pub fn partition_values_from_filters(field: &str, filters: &StringMap<FilterValue>) -> (r: Result<
    Vec<String>,
    EngineError,
>)
    ensures
        routing(field@, filters@, values_view(r)),
{
    let values: Vec<String> = match filters.get(field) {
        Some(FilterValue::Exact(MetadataValue::String(s))) => {
            let mut v: Vec<String> = Vec::new();
            v.push(s.clone());
            proof {
                assert(text_views(v@) =~= seq![s@]);
            }
            v
        },
        Some(FilterValue::Condition(cond)) => {
            match &cond.in_values {
                Some(vs) => {
                    if vs.len() == 0 {
                        return Err(unrouted_error(field));
                    }
                    duplicate_texts(vs)
                },
                None => {
                    return Err(unrouted_error(field));
                },
            }
        },
        _ => {
            return Err(unrouted_error(field));
        },
    };
    assert(named_values(lookup(filters@, field@)) == Some(text_views(values@)));
    if values.len() > MAX_SEARCH_FANOUT {
        let mut s = own("filters.");
        s.append(field);
        s.append(" names ");
        s.append(decimal_text(values.len() as u64).as_str());
        s.append(" partitions; max fan-out is ");
        s.append(decimal_text(16).as_str());
        return Err(EngineError::Failed(s));
    }
    let mut i: usize = 0;
    while i < values.len()
        invariant
            i <= values@.len() <= 16,
            named_values(lookup(filters@, field@)) == Some(text_views(values@)),
            forall|j: int|
                0 <= j < i ==> partition_value_error(#[trigger] text_views(values@)[j]) is None,
        decreases values.len() - i,
    {
        match validate_partition_value(values[i].as_str()) {
            Ok(()) => {},
            Err(e) => {
                proof {
                    assert(partition_value_error(text_views(values@)[i as int]) == Some(e@));
                }
                return Err(e);
            },
        }
        i = i + 1;
    }
    Ok(values)
}

// ── Laws ────────────────────────────────────────────────────────────────

/// The parent read back from a partition's namespace is the parent that it was
/// made from, exactly when no separator begins inside the parent's name.
pub proof fn law_parent_of_partition(parent: Seq<char>, pval: Seq<char>)
    ensures
        parent_name(partition_name(parent, pval)) is Some,
        parent_name(partition_name(parent, pval)) == Some(parent) <==> !contains_text(
            parent + separator().drop_last(),
            separator(),
        ),
{
    reveal_strlit("--part--");
    let sep = separator();
    let ns = partition_name(parent, pval);
    let at = parent.len() as int;
    assert(sep.len() == 8);
    assert(ns.subrange(at, at + 8) =~= sep);
    assert(occurs_at(ns, sep, at));
    let short = parent + sep.drop_last();
    assert forall|j: int| 0 <= j < at implies occurs_at(ns, sep, j) == occurs_at(short, sep, j) by {
        if j + 8 <= short.len() {
            assert(ns.subrange(j, j + 8) =~= short.subrange(j, j + 8));
        }
    }
    assert forall|j: int| occurs_at(short, sep, j) implies 0 <= j < at by {}
    lemma_first_exists(ns, sep, at);
    let f = choose|i: int| first_occurrence(ns, sep, i);
    assert(f <= at) by {
        if f > at {
            assert(!occurs_at(ns, sep, at));
        }
    }
    if contains_text(short, sep) {
        let j = choose|j: int| occurs_at(short, sep, j);
        assert(occurs_at(ns, sep, j));
        assert(f < at);
        assert(ns.subrange(0, f).len() < parent.len());
    } else {
        if f < at {
            assert(occurs_at(short, sep, f));
        }
        assert(ns.subrange(0, at) =~= parent);
    }
}

proof fn lemma_first_exists(hay: Seq<char>, needle: Seq<char>, at: int)
    requires
        occurs_at(hay, needle, at),
    ensures
        exists|i: int| first_occurrence(hay, needle, i),
    decreases at,
{
    if exists|j: int| 0 <= j < at && occurs_at(hay, needle, j) {
        let j = choose|j: int| 0 <= j < at && occurs_at(hay, needle, j);
        lemma_first_exists(hay, needle, j);
    } else {
        assert(first_occurrence(hay, needle, at));
    }
}

/// Every partition's namespace is recognised as one.
pub proof fn law_partition_is_recognised(parent: Seq<char>, pval: Seq<char>)
    ensures
        contains_text(partition_name(parent, pval), separator()),
{
    let at = parent.len() as int;
    assert(partition_name(parent, pval).subrange(at, at + separator().len()) =~= separator());
    assert(occurs_at(partition_name(parent, pval), separator(), at));
}

/// Different partition values of one parent have different namespaces.
pub proof fn law_partitions_are_distinct(parent: Seq<char>, v: Seq<char>, w: Seq<char>)
    requires
        partition_name(parent, v) == partition_name(parent, w),
    ensures
        v == w,
{
    let a = partition_name(parent, v);
    let b = partition_name(parent, w);
    let n = (parent + separator()).len() as int;
    assert(v =~= a.subrange(n, a.len() as int));
    assert(w =~= b.subrange(n, b.len() as int));
}

/// The namespace of a valid partition value of a validly named parent is itself
/// a valid name, so every rule for names accepts it.
pub proof fn law_partition_name_is_valid(parent: Seq<char>, pval: Seq<char>)
    requires
        valid_name(parent),
        partition_value_error(pval) is None,
    ensures
        valid_name(partition_name(parent, pval)),
{
    reveal_strlit("--part--");
    let ns = partition_name(parent, pval);
    let sep = separator();
    assert forall|i: int| 0 <= i < ns.len() implies is_name_char(#[trigger] ns[i]) by {
        if i < parent.len() {
            assert(ns[i] == parent[i]);
        } else if i < parent.len() + sep.len() {
            assert(ns[i] == sep[i - parent.len()]);
        } else {
            assert(ns[i] == pval[i - parent.len() - sep.len()]);
        }
    }
}

/// All partitions of a collection mint their ids from one allocator, that of the
/// collection, so that ids are unique across it. This leaves out parents whose
/// name runs into the separator.
pub proof fn law_siblings_share_allocator(parent: Seq<char>, v: Seq<char>, w: Seq<char>)
    requires
        !contains_text(parent + separator().drop_last(), separator()),
    ensures
        allocator_name(partition_name(parent, v)) == parent,
        allocator_name(partition_name(parent, v)) == allocator_name(partition_name(parent, w)),
{
    law_parent_of_partition(parent, v);
    law_parent_of_partition(parent, w);
}

/// The name of a partition is its collection's, the separator, and the partition's value.
pub proof fn law_partition_name_is_made_of(parent: Seq<char>, pval: Seq<char>)
    ensures
        partition_name(parent, pval) == parent + "--part--"@ + pval,
        separator() == "--part--"@,
{
}

/// A value names a partition exactly where it is a valid name of at most 64 bytes that does
/// not hold the separator.
pub proof fn law_partition_values(v: Seq<char>)
    ensures
        partition_value_error(v) is None <==> valid_name(v) && encode_utf8(v).len() <= 64
            && !contains_text(v, "--part--"@),
        partition_value_error(v) matches Some(e) ==> !e.not_found,
{
}

/// A chunk goes to the partition that its metadata names under the field, and is refused
/// where the field is missing, is no text, or is no value for a partition.
pub proof fn law_chunk_goes_by_its_metadata(chunk: IngestChunk, field: Seq<char>, v: Seq<char>)
    ensures
        chunk_partition(chunk, field) == Ok::<Seq<char>, ErrorView>(v) <==> (
        chunk.metadata@.contains_key(field) && chunk.metadata@[field] == MetaView::Text(v)
            && partition_value_error(v) is None),
        !chunk.metadata@.contains_key(field) ==> chunk_partition(chunk, field) is Err,
        chunk_partition(chunk, field) matches Err(e) ==> !e.not_found,
{
}

/// Grouping by partition puts each chunk into the group that its metadata names, and no
/// chunk into another one.
pub proof fn law_groups_go_by_metadata(
    chunks: Seq<IngestChunk>,
    field: Seq<char>,
    groups: Map<Seq<char>, Seq<IngestChunk>>,
    c: IngestChunk,
    v: Seq<char>,
)
    requires
        grouped(chunks, field, groups),
        forall|i: int| 0 <= i < chunks.len() ==> chunk_partition(#[trigger] chunks[i], field) is Ok,
    ensures
        groups.contains_key(v) && groups[v].contains(c) <==> chunks.contains(c)
            && c.metadata@.contains_key(field) && c.metadata@[field] == MetaView::Text(v),
        groups.contains_key(v) ==> groups[v].len() > 0,
{
    let p = |c: IngestChunk| chunk_partition(c, field) == Ok::<Seq<char>, ErrorView>(v);
    crate::assoc::lemma_filter_contains(chunks, p, c);
    assert(partition_members(chunks, field, v) == chunks.filter(p));
    if chunks.contains(c) {
        let i = choose|i: int| 0 <= i < chunks.len() && chunks[i] == c;
        assert(chunk_partition(chunks[i], field) is Ok);
    }
    if groups.contains_key(v) {
        let i = choose|i: int|
            0 <= i < chunks.len() && chunk_partition(#[trigger] chunks[i], field) == Ok::<
                Seq<char>,
                ErrorView,
            >(v);
        crate::assoc::lemma_filter_contains(chunks, p, chunks[i]);
        assert(chunks.contains(chunks[i]));
        assert(groups[v].contains(chunks[i]));
    }
}

/// The partitions that a filter names are the one exact text, or the texts of a list that
/// is not empty; a bound or any other filter names none.
pub proof fn law_filters_name_partitions(
    s: Seq<char>,
    n: i64,
    gte: Option<u64>,
    lte: Option<u64>,
    contains: Option<Seq<char>>,
    vs: Seq<Seq<char>>,
)
    ensures
        named_values(Some(FilterView::Exact(MetaView::Text(s)))) == Some(seq![s]),
        named_values(Some(FilterView::Exact(MetaView::Int(n)))) is None,
        vs.len() > 0 ==> named_values(
            Some(FilterView::Condition { gte, lte, contains, in_values: Some(vs) }),
        ) == Some(vs),
        named_values(
            Some(FilterView::Condition { gte, lte, contains, in_values: None }),
        ) is None,
        named_values(None) is None,
{
}

/// A filter that names up to 16 partitions by valid values is routed to these; one that names
/// none, or more, or whose list is empty, is refused, and so is one with a value that is not
/// valid.
pub proof fn law_routing_by_the_filter(
    field: Seq<char>,
    filters: Map<Seq<char>, FilterView>,
    vs: Seq<Seq<char>>,
    gte: Option<u64>,
    lte: Option<u64>,
    contains: Option<Seq<char>>,
    r: Result<Seq<Seq<char>>, ErrorView>,
)
    requires
        routing(field, filters, r),
    ensures
        !filters.contains_key(field) ==> r is Err,
        filters.contains_key(field) && filters[field] == (FilterView::Condition {
            gte,
            lte,
            contains,
            in_values: Some(vs),
        }) ==> {
            &&& r is Ok <==> 0 < vs.len() <= 16 && forall|i: int|
                0 <= i < vs.len() ==> partition_value_error(#[trigger] vs[i]) is None
            &&& r matches Ok(out) ==> out == vs
            &&& vs.len() == 0 ==> r == Err::<Seq<Seq<char>>, ErrorView>(unrouted(field))
        },
        r matches Err(e) ==> !e.not_found,
{
}

/// The refusal of an unrouted request, or of one to too many partitions, names the field and
/// the limit of 16.
pub proof fn law_refusals_name_the_limit(field: Seq<char>, n: nat)
    ensures
        MAX_SEARCH_FANOUT == 16,
        contains_text(unrouted(field).text, field),
        contains_text(unrouted(field).text, decimal(16)),
        contains_text(too_many_partitions(field, n).text, field),
        contains_text(too_many_partitions(field, n).text, decimal(n)),
        contains_text(too_many_partitions(field, n).text, decimal(16)),
{
    let a = "this collection is partitioned by '"@;
    let b = "': include filters."@ + field
        + " (exact value, or {\"in\": [...]} for up to "@;
    let u = unrouted(field).text;
    assert(u =~= a + field + (b + decimal(16) + " partitions)"@));
    crate::text::law_holding_a_text(u, field, a, b + decimal(16) + " partitions)"@);
    assert(u =~= (a + field + b) + decimal(16) + " partitions)"@);
    crate::text::law_holding_a_text(u, decimal(16), a + field + b, " partitions)"@);
    let t = too_many_partitions(field, n).text;
    let c = "filters."@;
    let d = " names "@;
    let f = " partitions; max fan-out is "@;
    assert(t =~= c + field + (d + decimal(n) + f + decimal(16)));
    crate::text::law_holding_a_text(t, field, c, d + decimal(n) + f + decimal(16));
    assert(t =~= (c + field + d) + decimal(n) + (f + decimal(16)));
    crate::text::law_holding_a_text(t, decimal(n), c + field + d, f + decimal(16));
    assert(t =~= (c + field + d + decimal(n) + f) + decimal(16) + Seq::empty());
    crate::text::law_holding_a_text(
        t,
        decimal(16),
        c + field + d + decimal(n) + f,
        Seq::empty(),
    );
}

} // verus!
