//! What the HTTP interface decides: who may call it, what a request must hold,
//! and which status and text an outcome is answered with.
use crate::assoc::pairs_map;
use crate::duplicate::{duplicate_text, text_view, text_views, Duplicate};
use crate::errors::{collection_not_found, space_not_found, EngineError};
use crate::models::{
    ChunkRelation, ChunkRelationsResponse, Collection, CollectionInfo, CreateRelationsResponse,
    DeleteResponse, RebuildStatus, RelationDirection, SpaceView, VectorSpaceInfo,
};
use crate::number::Number;
use crate::text::{
    contains_text, decimal, decimal_text, own, starts_with_text, strip_text_prefix, text_chars,
    text_contains,
};
use vstd::prelude::*;
use vstd::string::*;

verus! {

pub const OK: u16 = 200;

pub const NO_CONTENT: u16 = 204;

pub const BAD_REQUEST: u16 = 400;

pub const NOT_FOUND: u16 = 404;

pub const INTERNAL_SERVER_ERROR: u16 = 500;

/// The most edges that one request may create.
pub const MAX_RELATIONS_PER_REQUEST: usize = 10_000;

/// The largest request body: batches with embeddings are large.
pub const MAX_BODY_BYTES: usize = 67_108_864;

// ── Access ──────────────────────────────────────────────────────────────

/// Who may call the interface: without a key anyone, else who presents the key.
#[derive(Debug, Clone)]
pub struct AuthConfig {
    pub expected_key: Option<String>,
}

/// Whether two byte strings are equal. Every byte is looked at, wherever the
/// first difference stands.
pub fn ct_eq(a: &[u8], b: &[u8]) -> (r: bool)
    ensures
        r == (a@ == b@),
{
    if a.len() != b.len() {
        return false;
    }
    let mut diff: u8 = 0;
    let mut i: usize = 0;
    while i < a.len()
        invariant
            a@.len() == b@.len(),
            i <= a@.len(),
            diff == 0 <==> (forall|k: int| 0 <= k < i ==> #[trigger] a@[k] == b@[k]),
        decreases a.len() - i,
    {
        let x: u8 = a[i];
        let y: u8 = b[i];
        let ghost before = diff;
        diff = diff | (x ^ y);
        proof {
            assert((before | (x ^ y)) == 0u8 <==> before == 0u8 && x == y) by (bit_vector);
            if before == 0 && x == y {
                assert forall|k: int| 0 <= k < i + 1 implies #[trigger] a@[k] == b@[k] by {}
            } else if x != y {
                assert(a@[i as int] != b@[i as int]);
            }
        }
        i = i + 1;
    }
    proof {
        if diff == 0 {
            assert(a@ =~= b@);
        }
    }
    diff == 0
}

/// What a header `Bearer ...` presents.
pub open spec fn presented(header: Option<Seq<char>>) -> Option<Seq<char>> {
    match header {
        Some(h) => if starts_with_text(h, "Bearer "@) {
            Some(h.subrange("Bearer "@.len() as int, h.len() as int))
        } else {
            None
        },
        None => None,
    }
}

/// What an optional text says.
pub open spec fn header_view(o: Option<&str>) -> Option<Seq<char>> {
    match o {
        Some(s) => Some(s@),
        None => None,
    }
}

/// Whether a call with this `Authorization` header is let through.
pub fn authorized(cfg: &AuthConfig, header: Option<&str>) -> (r: bool)
    ensures
        r == (cfg.expected_key is None || presented(header_view(header)) == text_view(
            cfg.expected_key,
        )),
{
    let provided: Option<&str> = match header {
        Some(h) => strip_text_prefix(h, "Bearer "),
        None => None,
    };
    match (&cfg.expected_key, provided) {
        (None, _) => true,
        (Some(expected), Some(got)) => {
            proof {
                if vstd::utf8::encode_utf8(expected@) == vstd::utf8::encode_utf8(got@) {
                    crate::text::lemma_utf8_injective(expected@, got@);
                }
            }
            ct_eq(expected.as_str().as_bytes(), got.as_bytes())
        },
        (Some(_), None) => false,
    }
}

/// The key that a setting gives: an empty one means none.
pub fn api_key(setting: Option<String>) -> (r: Option<String>)
    ensures
        text_view(r) == (if setting is Some && setting->0@.len() > 0 {
            text_view(setting)
        } else {
            None
        }),
{
    match setting {
        Some(s) => {
            if s.as_str().unicode_len() > 0 {
                Some(s)
            } else {
                None
            }
        },
        None => None,
    }
}

/// How many requests may be in progress at once: as many as the setting says, if
/// it is positive. There is a limit in any case, the most that the semaphore
/// behind it can take and half of that to spare.
pub fn max_concurrency(setting: Option<usize>) -> (r: usize)
    ensures
        r == (if setting is Some && 0 < setting->0 && setting->0 < usize::MAX / 16 {
            setting->0
        } else {
            usize::MAX / 16
        }),
{
    let most: usize = usize::MAX / 16;
    match setting {
        Some(n) => {
            if n > 0 && n < most {
                n
            } else {
                most
            }
        },
        None => most,
    }
}

// ── Errors ──────────────────────────────────────────────────────────────

/// What an internal error is answered with: what went wrong stays in the log.
pub open spec fn hidden() -> Seq<char> {
    "internal error (see server logs)"@
}

/// The answer to an error. Something that does not exist is a 404 whatever the
/// handler's default; an internal error does not show its text.
pub fn error_response(e: &EngineError, default: u16) -> (r: (u16, String))
    ensures
        r.0 == (if e@.not_found {
            NOT_FOUND
        } else {
            default
        }),
        r.1@ == (if !e@.not_found && default == INTERNAL_SERVER_ERROR {
            hidden()
        } else {
            e@.text
        }),
{
    if e.is_not_found() {
        return (NOT_FOUND, e.message());
    }
    if default == INTERNAL_SERVER_ERROR {
        return (default, own("internal error (see server logs)"));
    }
    (default, e.message())
}

/// The answer to an error on relations, told by its text.
pub fn relations_error(e: &EngineError) -> (r: (u16, String))
    ensures
        r.0 == (if contains_text(e@.text, "not found"@) {
            NOT_FOUND
        } else if contains_text(e@.text, "must differ"@) {
            BAD_REQUEST
        } else {
            INTERNAL_SERVER_ERROR
        }),
        r.1@ == (if contains_text(e@.text, "not found"@) || contains_text(e@.text, "must differ"@) {
            e@.text
        } else {
            hidden()
        }),
{
    let msg = e.message();
    if text_contains(msg.as_str(), "not found") {
        (NOT_FOUND, msg)
    } else if text_contains(msg.as_str(), "must differ") {
        (BAD_REQUEST, msg)
    } else {
        (INTERNAL_SERVER_ERROR, own("internal error (see server logs)"))
    }
}

/// The answer to an error of a temporal lookup, told by its text.
pub fn segments_error(e: &EngineError) -> (r: (u16, String))
    ensures
        r.0 == (if contains_text(e@.text, "not found"@) {
            NOT_FOUND
        } else {
            INTERNAL_SERVER_ERROR
        }),
        r.1@ == e@.text,
{
    let msg = e.message();
    if text_contains(msg.as_str(), "not found") {
        (NOT_FOUND, msg)
    } else {
        (INTERNAL_SERVER_ERROR, msg)
    }
}

// ── Deletes ─────────────────────────────────────────────────────────────

/// The answer to a delete of one chunk.
pub fn delete_chunk_response(id: u64, deleted: usize, seq: Option<u64>) -> (r: Result<
    DeleteResponse,
    (u16, String),
>)
    ensures
        r is Ok <==> deleted > 0,
        r matches Ok(d) ==> d.deleted == deleted && d.seq == seq,
        r matches Err(e) ==> e.0 == NOT_FOUND && e.1@ == "chunk "@ + decimal(id as nat)
            + " not found or already deleted"@,
{
    if deleted == 0 {
        let mut s = own("chunk ");
        s.append(decimal_text(id).as_str());
        s.append(" not found or already deleted");
        return Err((NOT_FOUND, s));
    }
    Ok(DeleteResponse { deleted, seq })
}

/// Refuses a delete that selects nothing.
pub fn check_delete_request(ids: usize, filters: usize) -> (r: Result<(), (u16, String)>)
    ensures
        r is Ok <==> ids > 0 || filters > 0,
        r matches Err(e) ==> e.0 == BAD_REQUEST && e.1@
            == "provide `ids` and/or `filters` to select chunks to delete"@,
{
    if ids == 0 && filters == 0 {
        return Err(
            (BAD_REQUEST, own("provide `ids` and/or `filters` to select chunks to delete")),
        );
    }
    Ok(())
}

/// Adds the outcome of one half of a delete by ids and by filter: the counts add
/// up, and the last log entry that there was is reported.
pub fn add_deleted(so_far: &mut DeleteResponse, deleted: usize, seq: Option<u64>)
    requires
        old(so_far).deleted + deleted <= usize::MAX,
    ensures
        final(so_far).deleted == old(so_far).deleted + deleted,
        final(so_far).seq == (if seq is Some {
            seq
        } else {
            old(so_far).seq
        }),
{
    so_far.deleted = so_far.deleted + deleted;
    if seq.is_some() {
        so_far.seq = seq;
    }
}

/// The answer when the delete by filter fails after the delete by ids: what was
/// deleted stays deleted, and is reported.
pub fn partial_delete_error(e: &EngineError, deleted: usize) -> (r: (u16, String))
    ensures
        r.0 == (if e@.not_found {
            NOT_FOUND
        } else {
            INTERNAL_SERVER_ERROR
        }),
        r.1@ == (if e@.not_found {
            e@.text
        } else {
            hidden()
        }) + " ("@ + decimal(deleted as nat)
            + " chunk(s) were already deleted by `ids` before the error)"@,
{
    let (code, mut s) = error_response(e, INTERNAL_SERVER_ERROR);
    s.append(" (");
    s.append(decimal_text(deleted as u64).as_str());
    s.append(" chunk(s) were already deleted by `ids` before the error)");
    (code, s)
}

// ── Relations ───────────────────────────────────────────────────────────

/// Refuses a request that creates no edge, or too many.
pub fn check_relations_request(edges: usize) -> (r: Result<(), (u16, String)>)
    ensures
        r is Ok <==> 0 < edges && edges <= MAX_RELATIONS_PER_REQUEST,
        r matches Err(e) ==> e.0 == BAD_REQUEST && e.1@ == (if edges == 0 {
            "relations must contain at least one edge"@
        } else {
            "too many relations in one request: "@ + decimal(edges as nat)
                + " (max 10000); split into batches"@
        }),
{
    if edges == 0 {
        return Err((BAD_REQUEST, own("relations must contain at least one edge")));
    }
    if edges > MAX_RELATIONS_PER_REQUEST {
        let mut s = own("too many relations in one request: ");
        s.append(decimal_text(edges as u64).as_str());
        s.append(" (max 10000); split into batches");
        return Err((BAD_REQUEST, s));
    }
    Ok(())
}

/// The answer to a creation of edges.
pub fn created_response(relations: Vec<ChunkRelation>) -> (r: CreateRelationsResponse)
    ensures
        r.relations@ == relations@,
        r.created == relations@.len(),
{
    let created: usize = relations.len();
    CreateRelationsResponse { relations, created }
}

/// The answer to a request for a chunk's edges.
pub fn relations_response(relations: Vec<ChunkRelation>) -> (r: ChunkRelationsResponse)
    ensures
        r.relations@ == relations@,
        r.total == relations@.len(),
{
    let total: usize = relations.len();
    ChunkRelationsResponse { relations, total }
}

/// The answer to a delete of an edge.
pub fn delete_relation_response(existed: bool) -> (r: Result<u16, (u16, String)>)
    ensures
        r is Ok <==> existed,
        r matches Ok(s) ==> s == NO_CONTENT,
        r matches Err(e) ==> e.0 == NOT_FOUND && e.1@ == "relation not found"@,
{
    if existed {
        Ok(NO_CONTENT)
    } else {
        Err((NOT_FOUND, own("relation not found")))
    }
}

/// The query of a request for a chunk's edges.
#[derive(Debug, Clone)]
pub struct ChunkRelationsQuery {
    pub direction: RelationDirection,
    /// Types, separated by commas.
    pub types: Option<String>,
}

/// The character is white space.
pub open spec fn is_white(c: char) -> bool {
    ||| '\u{9}' <= c && c <= '\u{d}'
    ||| c == ' '
    ||| c == '\u{85}'
    ||| c == '\u{a0}'
    ||| c == '\u{1680}'
    ||| '\u{2000}' <= c && c <= '\u{200a}'
    ||| c == '\u{2028}'
    ||| c == '\u{2029}'
    ||| c == '\u{202f}'
    ||| c == '\u{205f}'
    ||| c == '\u{3000}'
}

fn white(c: char) -> (r: bool)
    ensures
        r == is_white(c),
{
    ('\u{9}' <= c && c <= '\u{d}') || c == ' ' || c == '\u{85}' || c == '\u{a0}' || c == '\u{1680}'
        || ('\u{2000}' <= c && c <= '\u{200a}') || c == '\u{2028}' || c == '\u{2029}' || c
        == '\u{202f}' || c == '\u{205f}' || c == '\u{3000}'
}

/// The text without white space at its ends.
pub open spec fn trimmed(s: Seq<char>) -> Seq<char>
    decreases s.len(),
{
    if s.len() > 0 && is_white(s[0]) {
        trimmed(s.subrange(1, s.len() as int))
    } else if s.len() > 0 && is_white(s.last()) {
        trimmed(s.drop_last())
    } else {
        s
    }
}

/// A text cut at its commas: the pieces before the last comma, and what follows
/// it.
pub open spec fn cut(s: Seq<char>) -> (Seq<Seq<char>>, Seq<char>)
    decreases s.len(),
{
    if s.len() == 0 {
        (Seq::empty(), Seq::empty())
    } else {
        let (pieces, rest) = cut(s.drop_last());
        if s.last() == ',' {
            (pieces.push(rest), Seq::empty())
        } else {
            (pieces, rest.push(s.last()))
        }
    }
}

/// The pieces without white space at their ends; empty ones are left out.
pub open spec fn words(pieces: Seq<Seq<char>>) -> Seq<Seq<char>>
    decreases pieces.len(),
{
    if pieces.len() == 0 {
        Seq::empty()
    } else {
        let before = words(pieces.drop_last());
        let word = trimmed(pieces.last());
        if word.len() == 0 {
            before
        } else {
            before.push(word)
        }
    }
}

/// The words between the commas of a text.
pub open spec fn words_of(s: Seq<char>) -> Seq<Seq<char>> {
    let (pieces, rest) = cut(s);
    words(pieces.push(rest))
}

/// Where the trimmed form of a stretch of characters begins and ends.
fn trim_stretch(cs: &Vec<char>, start: usize, end: usize) -> (r: (usize, usize))
    requires
        start <= end <= cs@.len(),
    ensures
        start <= r.0 <= r.1 <= end,
        cs@.subrange(r.0 as int, r.1 as int) == trimmed(cs@.subrange(start as int, end as int)),
{
    let mut lo: usize = start;
    let mut hi: usize = end;
    let ghost whole = trimmed(cs@.subrange(start as int, end as int));
    while lo < hi && white(cs[lo])
        invariant
            start <= lo <= hi <= end <= cs@.len(),
            hi == end,
            trimmed(cs@.subrange(lo as int, hi as int)) == whole,
        ensures
            start <= lo <= hi <= end,
            hi == end,
            trimmed(cs@.subrange(lo as int, hi as int)) == whole,
            lo == hi || !is_white(cs@[lo as int]),
        decreases hi - lo,
    {
        proof {
            let s = cs@.subrange(lo as int, hi as int);
            assert(s.subrange(1, s.len() as int) =~= cs@.subrange(lo + 1, hi as int));
            assert(s[0] == cs@[lo as int]);
        }
        lo = lo + 1;
    }
    while lo < hi && white(cs[hi - 1])
        invariant
            start <= lo <= hi <= end <= cs@.len(),
            trimmed(cs@.subrange(lo as int, hi as int)) == whole,
            lo == hi || !is_white(cs@[lo as int]),
        ensures
            start <= lo <= hi <= end,
            trimmed(cs@.subrange(lo as int, hi as int)) == whole,
            lo == hi || (!is_white(cs@[lo as int]) && !is_white(cs@[hi - 1])),
        decreases hi - lo,
    {
        proof {
            let s = cs@.subrange(lo as int, hi as int);
            assert(s.drop_last() =~= cs@.subrange(lo as int, hi - 1));
            assert(s[0] == cs@[lo as int]);
            assert(s.last() == cs@[hi - 1]);
        }
        hi = hi - 1;
    }
    proof {
        let s = cs@.subrange(lo as int, hi as int);
        if lo < hi {
            assert(s[0] == cs@[lo as int]);
            assert(s.last() == cs@[hi - 1]);
        }
        assert(trimmed(s) == s);
    }
    (lo, hi)
}

fn push_word(out: &mut Vec<String>, text: &str, cs: &Vec<char>, start: usize, end: usize)
    requires
        cs@ == text@,
        start <= end <= cs@.len(),
    ensures
        text_views(final(out)@) == (if trimmed(
            text@.subrange(start as int, end as int),
        ).len() == 0 {
            text_views(old(out)@)
        } else {
            text_views(old(out)@).push(trimmed(text@.subrange(start as int, end as int)))
        }),
{
    let (lo, hi) = trim_stretch(cs, start, end);
    if lo < hi {
        let ghost before = text_views(out@);
        out.push(own(text.substring_char(lo, hi)));
        proof {
            assert(text_views(out@) =~= before.push(
                trimmed(text@.subrange(start as int, end as int)),
            ));
        }
    }
}

fn split_words(text: &str) -> (r: Vec<String>)
    ensures
        text_views(r@) == words_of(text@),
{
    let cs = text_chars(text);
    let mut out: Vec<String> = Vec::new();
    let mut start: usize = 0;
    let mut i: usize = 0;
    proof {
        assert(text@.subrange(0, 0) =~= Seq::empty());
        assert(text_views(out@) =~= Seq::empty());
    }
    while i < cs.len()
        invariant
            cs@ == text@,
            start <= i <= cs@.len(),
            cut(text@.subrange(0, i as int)).1 == text@.subrange(start as int, i as int),
            text_views(out@) == words(cut(text@.subrange(0, i as int)).0),
        decreases cs.len() - i,
    {
        proof {
            let longer = text@.subrange(0, i + 1);
            assert(longer.drop_last() =~= text@.subrange(0, i as int));
            assert(longer.last() == cs@[i as int]);
        }
        if cs[i] == ',' {
            let ghost (pieces, rest) = cut(text@.subrange(0, i as int));
            push_word(&mut out, text, &cs, start, i);
            start = i + 1;
            proof {
                assert(pieces.push(rest).drop_last() =~= pieces);
                assert(text@.subrange(start as int, i + 1) =~= Seq::empty());
            }
        } else {
            proof {
                assert(text@.subrange(start as int, i + 1) =~= text@.subrange(
                    start as int,
                    i as int,
                ).push(cs@[i as int]));
            }
        }
        i = i + 1;
    }
    proof {
        assert(text@.subrange(0, text@.len() as int) =~= text@);
    }
    let ghost (pieces, rest) = cut(text@);
    push_word(&mut out, text, &cs, start, i);
    proof {
        assert(pieces.push(rest).drop_last() =~= pieces);
    }
    out
}

/// The types that a query asks for. A list without any word means no filter, not
/// a filter that nothing passes.
pub fn query_types(q: &ChunkRelationsQuery) -> (r: Option<Vec<String>>)
    ensures
        r is Some <==> q.types is Some && words_of(q.types->0@).len() > 0,
        r matches Some(v) ==> text_views(v@) == words_of(q.types->0@),
{
    match &q.types {
        Some(s) => {
            let v = split_words(s.as_str());
            proof {
                assert(text_views(v@).len() == v@.len());
            }
            if v.len() == 0 {
                None
            } else {
                Some(v)
            }
        },
        None => None,
    }
}

// ── Collections ─────────────────────────────────────────────────────────

/// What the interface shows of a collection.
pub fn collection_to_info(c: &Collection) -> (r: CollectionInfo)
    ensures
        r.name@ == c.name@,
        r.created_at == c.created_at,
        r.embedding_dims == c.embedding_dims,
        r.chunk_count == c.chunk_count,
        r.vector_spaces@ == c.vector_spaces@,
        text_view(r.default_vector_space) == text_view(c.default_vector_space),
{
    CollectionInfo {
        name: c.name.clone(),
        created_at: c.created_at,
        embedding_dims: c.embedding_dims,
        chunk_count: c.chunk_count,
        vector_spaces: c.vector_spaces.duplicate(),
        default_vector_space: duplicate_text(&c.default_vector_space),
    }
}

/// What the interface shows of a space.
pub open spec fn shows_space(i: VectorSpaceInfo, name: Seq<char>, s: SpaceView) -> bool {
    i.name@ == name && i.dims == s.dims && i.model@ == s.model && i.status@ == s.status
}

/// The vector spaces of a collection, by name.
pub fn list_vector_spaces(c: &Collection) -> (r: Vec<VectorSpaceInfo>)
    ensures
        r@.len() == c.vector_spaces.pairs().len(),
        forall|i: int|
            0 <= i < r@.len() ==> #[trigger] shows_space(
                r@[i],
                c.vector_spaces.pairs()[i].0,
                c.vector_spaces.pairs()[i].1,
            ),
        c.vector_spaces@ == pairs_map(c.vector_spaces.pairs()),
{
    let n: usize = c.vector_spaces.len();
    let mut out: Vec<VectorSpaceInfo> = Vec::new();
    let mut i: usize = 0;
    while i < n
        invariant
            n == c.vector_spaces.pairs().len(),
            i <= n,
            out@.len() == i,
            forall|k: int|
                0 <= k < i ==> #[trigger] shows_space(
                    out@[k],
                    c.vector_spaces.pairs()[k].0,
                    c.vector_spaces.pairs()[k].1,
                ),
        decreases n - i,
    {
        let s = c.vector_spaces.value_at(i);
        out.push(
            VectorSpaceInfo {
                name: c.vector_spaces.key_at(i).clone(),
                dims: s.dims,
                model: s.model.clone(),
                status: s.status.clone(),
            },
        );
        i = i + 1;
    }
    out
}

/// The progress of a space that is not being rebuilt: all of it is there.
pub fn idle_rebuild_status(collection: Option<&Collection>, name: &str, space: &str) -> (r: Result<
    RebuildStatus,
    EngineError,
>)
    ensures
        r is Ok <==> collection is Some && collection->0.vector_spaces@.contains_key(space@),
        r matches Ok(s) ==> {
            &&& s.status@ == collection->0.vector_spaces@[space@].status
            &&& s.embedded == collection->0.chunk_count
            &&& s.total == collection->0.chunk_count
            &&& s.percent.bits == 0x4059_0000_0000_0000
        },
        r matches Err(e) ==> e@ == (if collection is None {
            crate::errors::missing_collection(name@)
        } else {
            crate::errors::missing_space(space@)
        }),
{
    match collection {
        None => Err(collection_not_found(name)),
        Some(c) => match c.vector_spaces.get(space) {
            Some(s) => Ok(
                RebuildStatus {
                    status: s.status.clone(),
                    embedded: c.chunk_count,
                    total: c.chunk_count,
                    percent: Number::from_bits(0x4059_0000_0000_0000),
                },
            ),
            None => Err(space_not_found(space)),
        },
    }
}

// ── Laws ────────────────────────────────────────────────────────────────

/// The key presented is what follows `Bearer ` in the header; a header of another kind
/// presents none, and neither does none.
pub proof fn law_presented_key(key: Seq<char>, header: Seq<char>)
    ensures
        presented(Some("Bearer "@ + key)) == Some(key),
        presented(Some(header)) matches Some(k) ==> header == "Bearer "@ + k,
        presented(None) is None,
{
    let h = "Bearer "@ + key;
    crate::text::law_holding_a_text(h, key, "Bearer "@, key);
    assert(h.subrange("Bearer "@.len() as int, h.len() as int) =~= key);
    crate::text::law_holding_a_text(header, "Bearer "@, key, key);
}

/// A trimmed text neither begins nor ends with white space, and what was taken off is white
/// space alone.
pub proof fn law_trimmed_text(s: Seq<char>)
    ensures
        trimmed(s).len() > 0 ==> !is_white(trimmed(s)[0]) && !is_white(trimmed(s).last()),
        exists|a: int, b: int|
            0 <= a <= b <= s.len() && trimmed(s) == #[trigger] s.subrange(a, b) && (forall|i: int|
                0 <= i < a || b <= i < s.len() ==> is_white(#[trigger] s[i])),
    decreases s.len(),
{
    if s.len() > 0 && is_white(s[0]) {
        let t = s.subrange(1, s.len() as int);
        law_trimmed_text(t);
        let (a, b) = choose|a: int, b: int|
            0 <= a <= b <= t.len() && trimmed(t) == #[trigger] t.subrange(a, b) && (forall|i: int|
                0 <= i < a || b <= i < t.len() ==> is_white(#[trigger] t[i]));
        assert(t.subrange(a, b) =~= s.subrange(a + 1, b + 1));
        assert forall|i: int| 0 <= i < a + 1 || b + 1 <= i < s.len() implies is_white(
            #[trigger] s[i],
        ) by {
            if i > 0 {
                assert(t[i - 1] == s[i]);
            }
        }
    } else if s.len() > 0 && is_white(s.last()) {
        let t = s.drop_last();
        law_trimmed_text(t);
        let (a, b) = choose|a: int, b: int|
            0 <= a <= b <= t.len() && trimmed(t) == #[trigger] t.subrange(a, b) && (forall|i: int|
                0 <= i < a || b <= i < t.len() ==> is_white(#[trigger] t[i]));
        assert(t.subrange(a, b) =~= s.subrange(a, b));
        assert forall|i: int| 0 <= i < a || b <= i < s.len() implies is_white(#[trigger] s[i]) by {
            if i < t.len() {
                assert(t[i] == s[i]);
            }
        }
    } else {
        assert(s.subrange(0, s.len() as int) =~= s);
    }
}

/// White space is what Unicode calls so: the space, the controls from tab to carriage
/// return, and the wider and narrower blanks.
pub proof fn law_white_space(c: char)
    ensures
        is_white(c) <==> (9 <= c as int <= 13 || c as int == 32 || c as int == 0x85 || c as int
            == 0xa0 || c as int == 0x1680 || 0x2000 <= c as int <= 0x200a || c as int == 0x2028
            || c as int == 0x2029 || c as int == 0x202f || c as int == 0x205f || c as int
            == 0x3000),
{
}

proof fn lemma_words_concat(a: Seq<Seq<char>>, b: Seq<Seq<char>>)
    ensures
        words(a + b) == words(a) + words(b),
    decreases b.len(),
{
    if b.len() == 0 {
        assert(a + b =~= a);
        assert(words(a) + words(b) =~= words(a));
    } else {
        lemma_words_concat(a, b.drop_last());
        assert((a + b).drop_last() =~= a + b.drop_last());
        assert(words(a + b) =~= words(a) + words(b));
    }
}

proof fn lemma_cut_at_comma(a: Seq<char>, b: Seq<char>)
    ensures
        cut(a.push(',') + b).0 == cut(a).0.push(cut(a).1) + cut(b).0,
        cut(a.push(',') + b).1 == cut(b).1,
    decreases b.len(),
{
    let s = a.push(',') + b;
    if b.len() == 0 {
        assert(s =~= a.push(','));
        assert(s.drop_last() =~= a);
        assert(cut(s).0 =~= cut(a).0.push(cut(a).1) + cut(b).0);
    } else {
        lemma_cut_at_comma(a, b.drop_last());
        assert(s.drop_last() =~= a.push(',') + b.drop_last());
        assert(cut(s).0 =~= cut(a).0.push(cut(a).1) + cut(b).0);
    }
}

proof fn lemma_cut_without_comma(s: Seq<char>)
    requires
        !s.contains(','),
    ensures
        cut(s).0.len() == 0,
        cut(s).1 == s,
    decreases s.len(),
{
    if s.len() > 0 {
        let init = s.drop_last();
        assert(!init.contains(',')) by {
            if init.contains(',') {
                let i = choose|i: int| 0 <= i < init.len() && init[i] == ',';
                assert(s[i] == ',');
            }
        }
        lemma_cut_without_comma(init);
        assert(s[s.len() - 1] == s.last());
        assert(init.push(s.last()) =~= s);
    } else {
        assert(cut(s).1 =~= s);
    }
}

/// The words of a list are those before a comma and those after it; a stretch without a
/// comma is one word, trimmed, or none where nothing is left of it.
pub proof fn law_words_between_commas(a: Seq<char>, b: Seq<char>)
    ensures
        words_of(a.push(',') + b) == words_of(a) + words_of(b),
        !a.contains(',') && trimmed(a).len() > 0 ==> words_of(a) == seq![trimmed(a)],
        !a.contains(',') && trimmed(a).len() == 0 ==> words_of(a).len() == 0,
{
    lemma_cut_at_comma(a, b);
    let x = cut(a).0.push(cut(a).1);
    let y = cut(b).0.push(cut(b).1);
    assert((x + cut(b).0).push(cut(b).1) =~= x + y);
    lemma_words_concat(x, y);
    if !a.contains(',') {
        lemma_cut_without_comma(a);
        let p = cut(a).0.push(cut(a).1);
        assert(p =~= seq![a]);
        assert(p.drop_last() =~= Seq::empty());
        assert(words(p.drop_last()) =~= Seq::empty());
        if trimmed(a).len() > 0 {
            assert(words(p) =~= seq![trimmed(a)]);
        }
    }
}

/// A space is shown under its name with its width, model and status.
pub proof fn law_shown_space(i: VectorSpaceInfo, name: Seq<char>, s: SpaceView)
    requires
        shows_space(i, name, s),
    ensures
        i.name@ == name && i.dims == s.dims && i.model@ == s.model && i.status@ == s.status,
{
}

/// The codes of answers are those of HTTP; a request brings at most 10 000 edges and 64 MiB.
pub proof fn law_codes_and_limits()
    ensures
        OK == 200 && NO_CONTENT == 204 && BAD_REQUEST == 400 && NOT_FOUND == 404
            && INTERNAL_SERVER_ERROR == 500,
        MAX_RELATIONS_PER_REQUEST == 10_000,
        MAX_BODY_BYTES == 64 * 1024 * 1024,
{
}

} // verus!
