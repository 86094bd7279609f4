//! JSON of the plain lists that segment files and log fragments hold, and of stored
//! edges.
use crate::duplicate::text_views;
use crate::le::push_bytes;
use crate::text::{own, text_eq};
use std::collections::BTreeMap;
use vstd::prelude::*;
use vstd::slice::*;
use vstd::string::*;

verus! {

/// What a table of contents says: section names with their lengths.
pub open spec fn toc_view(s: Seq<(String, u64)>) -> Seq<(Seq<char>, u64)> {
    Seq::new(s.len(), |i: int| (s[i].0@, s[i].1))
}

/// The JSON that `serde_json::to_vec` gives for a list of name and length
/// pairs, or the message of its error.
pub uninterp spec fn toc_json(toc: Seq<(Seq<char>, u64)>) -> Result<Seq<u8>, Seq<char>>;

/// The list of name and length pairs that `serde_json::from_slice` reads from
/// bytes, or the message of its error.
pub uninterp spec fn toc_of_json(bytes: Seq<u8>) -> Result<Seq<(Seq<char>, u64)>, Seq<char>>;

/// The JSON that `serde_json::to_vec` gives for a list of texts, or the message
/// of its error.
pub uninterp spec fn texts_json(texts: Seq<Seq<char>>) -> Result<Seq<u8>, Seq<char>>;

/// The list of texts that `serde_json::from_slice` reads from bytes, or the
/// message of its error.
pub uninterp spec fn texts_of_json(bytes: Seq<u8>) -> Result<Seq<Seq<char>>, Seq<char>>;

/// The list of ids that `serde_json::from_slice` reads from bytes, or the
/// message of its error.
pub uninterp spec fn ids_of_json(bytes: Seq<u8>) -> Result<Seq<u64>, Seq<char>>;

/// What a result with bytes says.
pub open spec fn bytes_result(r: Result<Vec<u8>, String>) -> Result<Seq<u8>, Seq<char>> {
    match r {
        Ok(b) => Ok(b@),
        Err(e) => Err(e@),
    }
}

/// What a result with a table of contents says.
pub open spec fn toc_result(r: Result<Vec<(String, u64)>, String>) -> Result<
    Seq<(Seq<char>, u64)>,
    Seq<char>,
> {
    match r {
        Ok(toc) => Ok(toc_view(toc@)),
        Err(e) => Err(e@),
    }
}

/// What a result with texts says.
pub open spec fn texts_result(r: Result<Vec<String>, String>) -> Result<Seq<Seq<char>>, Seq<char>> {
    match r {
        Ok(texts) => Ok(text_views(texts@)),
        Err(e) => Err(e@),
    }
}

/// What a result with ids says.
pub open spec fn ids_result(r: Result<Vec<u64>, String>) -> Result<Seq<u64>, Seq<char>> {
    match r {
        Ok(ids) => Ok(ids@),
        Err(e) => Err(e@),
    }
}

/// The bytes read back as the table of contents.
pub open spec fn reads_as_toc(bytes: Seq<u8>, toc: Seq<(Seq<char>, u64)>) -> bool {
    toc_of_json(bytes) matches Ok(t) && t == toc
}

/// The bytes read back as the texts.
pub open spec fn reads_as_texts(bytes: Seq<u8>, texts: Seq<Seq<char>>) -> bool {
    texts_of_json(bytes) matches Ok(t) && t == texts
}

/// `serde_json::to_vec` on a list of name and length pairs, which never fails: a
/// function of the list, and `serde_json::from_slice` reads the list back from its
/// bytes.
#[verifier::external_body]
pub(crate) fn toc_to_json(toc: &Vec<(String, u64)>) -> (r: Result<Vec<u8>, String>)
    ensures
        r is Ok,
        bytes_result(r) == toc_json(toc_view(toc@)),
        r matches Ok(b) ==> reads_as_toc(b@, toc_view(toc@)),
{
    serde_json::to_vec(toc).map_err(|e| e.to_string())
}

/// `serde_json::from_slice` to a list of name and length pairs: a function of
/// the bytes.
#[verifier::external_body]
pub(crate) fn toc_from_json(bytes: &[u8]) -> (r: Result<Vec<(String, u64)>, String>)
    ensures
        toc_result(r) == toc_of_json(bytes@),
{
    serde_json::from_slice::<Vec<(String, u64)>>(bytes).map_err(|e| e.to_string())
}

/// `serde_json::to_vec` on a list of texts, which never fails: a function of the
/// list, and `serde_json::from_slice` reads the list back from its bytes.
#[verifier::external_body]
pub(crate) fn texts_to_json(texts: &Vec<String>) -> (r: Result<Vec<u8>, String>)
    ensures
        r is Ok,
        bytes_result(r) == texts_json(text_views(texts@)),
        r matches Ok(b) ==> reads_as_texts(b@, text_views(texts@)),
{
    serde_json::to_vec(texts).map_err(|e| e.to_string())
}

/// `serde_json::from_slice` to a list of texts: a function of the bytes.
#[verifier::external_body]
pub(crate) fn texts_from_json(bytes: &[u8]) -> (r: Result<Vec<String>, String>)
    ensures
        texts_result(r) == texts_of_json(bytes@),
{
    serde_json::from_slice::<Vec<String>>(bytes).map_err(|e| e.to_string())
}

/// `serde_json::from_slice` to a list of ids: a function of the bytes.
#[verifier::external_body]
pub(crate) fn ids_from_json(bytes: &[u8]) -> (r: Result<Vec<u64>, String>)
    ensures
        ids_result(r) == ids_of_json(bytes@),
{
    serde_json::from_slice::<Vec<u64>>(bytes).map_err(|e| e.to_string())
}

/// What the relation store reads out of the stored form of an edge.
#[derive(Debug)]
pub struct EdgeKey {
    pub relation_id: String,
    pub source_chunk_id: u64,
    pub target_chunk_id: u64,
    pub relation_type: String,
}

/// What an edge's key says.
#[verifier::ext_equal]
pub struct EdgeView {
    pub relation_id: Seq<char>,
    pub source_chunk_id: u64,
    pub target_chunk_id: u64,
    pub relation_type: Seq<char>,
}

impl View for EdgeKey {
    type V = EdgeView;

    open spec fn view(&self) -> EdgeView {
        EdgeView {
            relation_id: self.relation_id@,
            source_chunk_id: self.source_chunk_id,
            target_chunk_id: self.target_chunk_id,
            relation_type: self.relation_type@,
        }
    }
}

/// What an optional key says.
pub open spec fn edge_view(o: Option<EdgeKey>) -> Option<EdgeView> {
    match o {
        Some(k) => Some(k@),
        None => None,
    }
}

/// What each list of bytes holds.
pub open spec fn byte_views(s: Seq<Vec<u8>>) -> Seq<Seq<u8>> {
    Seq::new(s.len(), |i: int| s[i]@)
}

/// What an optional text says.
pub open spec fn text_option(o: Option<String>) -> Option<Seq<char>> {
    match o {
        Some(t) => Some(t@),
        None => None,
    }
}

/// The bytes are a JSON object, whatever its fields hold.
pub uninterp spec fn is_object_json(bytes: Seq<u8>) -> bool;

/// The bytes are a JSON list, whatever its elements are.
pub uninterp spec fn is_list_json(bytes: Seq<u8>) -> bool;

/// The text that bytes are as JSON; nothing if they are something else.
pub uninterp spec fn text_of_json(bytes: Seq<u8>) -> Option<Seq<char>>;

/// The 64-bit number without a sign that bytes are as JSON; nothing if they are
/// something else.
pub uninterp spec fn number_of_json(bytes: Seq<u8>) -> Option<u64>;

/// The bytes are `null` as JSON.
pub uninterp spec fn is_null_json(bytes: Seq<u8>) -> bool;

/// The bytes are a truth value as JSON.
pub uninterp spec fn is_bool_json(bytes: Seq<u8>) -> bool;

/// The bytes are a number as JSON, of any kind.
pub uninterp spec fn is_number_json(bytes: Seq<u8>) -> bool;

/// The bytes are a time as JSON, in the form that `chrono` reads.
pub uninterp spec fn is_time_json(bytes: Seq<u8>) -> bool;

/// Whether `serde_json::from_slice` to a map with values that `serde` ignores
/// succeeds: a function of the bytes.
#[verifier::external_body]
pub(crate) fn json_is_object(bytes: &Vec<u8>) -> (r: bool)
    ensures
        r == is_object_json(bytes@),
{
    serde_json::from_slice::<BTreeMap<String, serde::de::IgnoredAny>>(bytes).is_ok()
}

/// Whether `serde_json::from_slice` to a list of elements that `serde` ignores
/// succeeds: a function of the bytes.
#[verifier::external_body]
pub(crate) fn json_is_list(bytes: &Vec<u8>) -> (r: bool)
    ensures
        r == is_list_json(bytes@),
{
    serde_json::from_slice::<Vec<serde::de::IgnoredAny>>(bytes).is_ok()
}

/// `serde_json::from_slice` to a text: a function of the bytes.
#[verifier::external_body]
pub(crate) fn json_text(bytes: &Vec<u8>) -> (r: Option<String>)
    ensures
        text_option(r) == text_of_json(bytes@),
{
    serde_json::from_slice(bytes).ok()
}

/// `serde_json::from_slice` to a 64-bit number without a sign: a function of the
/// bytes.
#[verifier::external_body]
pub(crate) fn json_number(bytes: &Vec<u8>) -> (r: Option<u64>)
    ensures
        r == number_of_json(bytes@),
{
    serde_json::from_slice(bytes).ok()
}

/// Whether `serde_json::from_slice` to the empty tuple succeeds, which is `null` as
/// JSON: a function of the bytes.
#[verifier::external_body]
pub(crate) fn json_is_null(bytes: &Vec<u8>) -> (r: bool)
    ensures
        r == is_null_json(bytes@),
{
    serde_json::from_slice::<()>(bytes).is_ok()
}

/// Whether `serde_json::from_slice` to a truth value succeeds: a function of the
/// bytes.
#[verifier::external_body]
pub(crate) fn json_is_bool(bytes: &Vec<u8>) -> (r: bool)
    ensures
        r == is_bool_json(bytes@),
{
    serde_json::from_slice::<bool>(bytes).is_ok()
}

/// Whether `serde_json::from_slice` to a `serde_json::Number` succeeds: a function of
/// the bytes.
#[verifier::external_body]
pub(crate) fn json_is_number(bytes: &Vec<u8>) -> (r: bool)
    ensures
        r == is_number_json(bytes@),
{
    serde_json::from_slice::<serde_json::Number>(bytes).is_ok()
}

/// Whether `serde_json::from_slice` to a `chrono::DateTime<chrono::Utc>` succeeds: a
/// function of the bytes.
#[verifier::external_body]
pub(crate) fn json_is_time(bytes: &Vec<u8>) -> (r: bool)
    ensures
        r == is_time_json(bytes@),
{
    serde_json::from_slice::<chrono::DateTime<chrono::Utc>>(bytes).is_ok()
}

// ── The members of an object, the elements of a list ────────────────────

/// How far JSON was taken apart: how deep it is nested at this point, whether inside a
/// text and right behind a backslash; where the present piece began and where its colon
/// is; and the pieces before it, each with what stands before its colon, if it has one.
#[verifier::ext_equal]
pub struct SplitView {
    pub depth: int,
    pub in_text: bool,
    pub escaped: bool,
    pub start: int,
    pub colon: Option<int>,
    pub out: Seq<(Option<Seq<u8>>, Seq<u8>)>,
}

/// The piece that ends at a position.
pub open spec fn piece_at(b: Seq<u8>, s: SplitView, i: int) -> (Option<Seq<u8>>, Seq<u8>) {
    match s.colon {
        Some(j) => (Some(b.subrange(s.start, j)), b.subrange(j + 1, i)),
        None => (None, b.subrange(s.start, i)),
    }
}

/// The byte at a position is taken in. The pieces are what commas part at the outermost
/// level, inside the first brackets.
pub open spec fn split_next(b: Seq<u8>, s: SplitView, i: int) -> SplitView {
    let c = b[i];
    if s.in_text {
        SplitView {
            in_text: s.escaped || c != 0x22,
            escaped: !s.escaped && c == 0x5c,
            ..s
        }
    } else if c == 0x22 {
        SplitView { in_text: true, ..s }
    } else if c == 0x7b || c == 0x5b {
        if s.depth == 0 {
            SplitView { depth: 1, start: i + 1, colon: None, ..s }
        } else {
            SplitView { depth: s.depth + 1, ..s }
        }
    } else if c == 0x7d || c == 0x5d {
        if s.depth == 1 {
            SplitView { depth: 0, out: s.out.push(piece_at(b, s, i)), ..s }
        } else if s.depth > 1 {
            SplitView { depth: s.depth - 1, ..s }
        } else {
            s
        }
    } else if c == 0x2c && s.depth == 1 {
        SplitView { start: i + 1, colon: None, out: s.out.push(piece_at(b, s, i)), ..s }
    } else if c == 0x3a && s.depth == 1 && s.colon is None {
        SplitView { colon: Some(i), ..s }
    } else {
        s
    }
}

/// The first bytes of JSON taken apart.
pub open spec fn split_to(b: Seq<u8>, k: int) -> SplitView
    decreases k,
{
    if k <= 0 {
        SplitView {
            depth: 0,
            in_text: false,
            escaped: false,
            start: 0,
            colon: None,
            out: Seq::empty(),
        }
    } else {
        split_next(b, split_to(b, k - 1), k - 1)
    }
}

/// The members of a JSON object in order, repeated ones included, each with the JSON of
/// its name and of its value; the elements of a list.
pub open spec fn pieces_of(b: Seq<u8>) -> Seq<(Option<Seq<u8>>, Seq<u8>)> {
    split_to(b, b.len() as int).out
}

/// Optional bytes.
pub open spec fn bytes_option(o: Option<Vec<u8>>) -> Option<Seq<u8>> {
    match o {
        Some(v) => Some(v@),
        None => None,
    }
}

/// What a list of pieces says.
pub open spec fn pieces_view(s: Seq<(Option<Vec<u8>>, Vec<u8>)>) -> Seq<
    (Option<Seq<u8>>, Seq<u8>),
> {
    Seq::new(s.len(), |i: int| (bytes_option(s[i].0), s[i].1@))
}

fn copy_range(b: &Vec<u8>, from: usize, to: usize) -> (r: Vec<u8>)
    requires
        from <= to <= b@.len(),
    ensures
        r@ == b@.subrange(from as int, to as int),
{
    let mut r: Vec<u8> = Vec::new();
    push_bytes(&mut r, slice_subrange(b.as_slice(), from, to));
    r
}

fn copy_piece(b: &Vec<u8>, start: usize, colon: Option<usize>, end: usize) -> (r: (
    Option<Vec<u8>>,
    Vec<u8>,
))
    requires
        start <= end <= b@.len(),
        colon matches Some(j) ==> start <= j < end,
    ensures
        bytes_option(r.0) == (match colon {
            Some(j) => Some(b@.subrange(start as int, j as int)),
            None => None,
        }),
        r.1@ == b@.subrange(
            match colon {
                Some(j) => j + 1,
                None => start as int,
            },
            end as int,
        ),
{
    match colon {
        Some(j) => (Some(copy_range(b, start, j)), copy_range(b, j + 1, end)),
        None => (None, copy_range(b, start, end)),
    }
}

/// Takes a JSON object apart into its members, and a list into its elements. That the
/// bytes are JSON is not looked at.
pub fn split_json(b: &Vec<u8>) -> (r: Vec<(Option<Vec<u8>>, Vec<u8>)>)
    ensures
        pieces_view(r@) == pieces_of(b@),
{
    let n: usize = b.len();
    let mut depth: usize = 0;
    let mut in_text = false;
    let mut escaped = false;
    let mut start: usize = 0;
    let mut colon: Option<usize> = None;
    let mut out: Vec<(Option<Vec<u8>>, Vec<u8>)> = Vec::new();
    let mut i: usize = 0;
    proof {
        assert(pieces_view(out@) =~= Seq::empty());
    }
    while i < n
        invariant
            n == b@.len(),
            i <= n,
            depth <= i,
            start <= i,
            colon matches Some(j) ==> start <= j < i,
            ({
                let s = split_to(b@, i as int);
                &&& s.depth == depth
                &&& s.in_text == in_text
                &&& s.escaped == escaped
                &&& s.start == start
                &&& s.colon == (match colon {
                    Some(j) => Some(j as int),
                    None => None,
                })
                &&& s.out == pieces_view(out@)
            }),
        decreases n - i,
    {
        let c: u8 = b[i];
        let ghost before = pieces_view(out@);
        if in_text {
            in_text = escaped || c != 0x22;
            escaped = !escaped && c == 0x5c;
        } else if c == 0x22 {
            in_text = true;
        } else if c == 0x7b || c == 0x5b {
            if depth == 0 {
                start = i + 1;
                colon = None;
            }
            depth = depth + 1;
        } else if c == 0x7d || c == 0x5d {
            if depth == 1 {
                let piece = copy_piece(b, start, colon, i);
                let ghost v = (bytes_option(piece.0), piece.1@);
                out.push(piece);
                proof {
                    assert(pieces_view(out@) =~= before.push(v));
                }
            }
            if depth > 0 {
                depth = depth - 1;
            }
        } else if c == 0x2c && depth == 1 {
            let piece = copy_piece(b, start, colon, i);
            let ghost v = (bytes_option(piece.0), piece.1@);
            out.push(piece);
            proof {
                assert(pieces_view(out@) =~= before.push(v));
            }
            start = i + 1;
            colon = None;
        } else if c == 0x3a && depth == 1 && colon.is_none() {
            colon = Some(i);
        }
        i = i + 1;
    }
    out
}

// ── Stored edges ────────────────────────────────────────────────────────

/// What a list of named values says: of each value, given as JSON, its name.
pub open spec fn members_view(s: Seq<(Option<String>, Vec<u8>)>) -> Seq<
    (Option<Seq<char>>, Seq<u8>),
> {
    Seq::new(s.len(), |i: int| (text_option(s[i].0), s[i].1@))
}

/// The members of a JSON object by name.
pub open spec fn named(pieces: Seq<(Option<Seq<u8>>, Seq<u8>)>) -> Seq<
    (Option<Seq<char>>, Seq<u8>),
> {
    Seq::new(
        pieces.len(),
        |i: int|
            (
                match pieces[i].0 {
                    Some(raw) => text_of_json(raw),
                    None => None,
                },
                pieces[i].1,
            ),
    )
}

/// The number of fields of an edge.
pub const EDGE_FIELDS: usize = 8;

/// The fields of an edge, in the order in which they stand where an edge is a list.
pub open spec fn edge_field(i: int) -> Seq<char> {
    if i == 0 {
        "relation_id"@
    } else if i == 1 {
        "source_chunk_id"@
    } else if i == 2 {
        "target_chunk_id"@
    } else if i == 3 {
        "target_document_id"@
    } else if i == 4 {
        "relation_type"@
    } else if i == 5 {
        "target_status"@
    } else if i == 6 {
        "metadata"@
    } else {
        "created_at"@
    }
}

/// The elements of a list under the names of the fields of an edge.
pub open spec fn listed(pieces: Seq<(Option<Seq<u8>>, Seq<u8>)>) -> Seq<
    (Option<Seq<char>>, Seq<u8>),
> {
    Seq::new(pieces.len(), |i: int| (Some(edge_field(i)), pieces[i].1))
}

/// What there is under a name.
#[verifier::ext_equal]
pub enum FoundView {
    Missing,
    One(Seq<u8>),
    Many,
}

/// What there is under a name among some members.
pub open spec fn found_in(members: Seq<(Option<Seq<char>>, Seq<u8>)>, name: Seq<char>) -> FoundView
    decreases members.len(),
{
    if members.len() == 0 {
        FoundView::Missing
    } else {
        let before = found_in(members.drop_last(), name);
        if members.last().0 == Some(name) {
            match before {
                FoundView::Missing => FoundView::One(members.last().1),
                _ => FoundView::Many,
            }
        } else {
            before
        }
    }
}

/// The JSON of a value that may stand in metadata: a truth value, a number, a text or
/// a list of texts.
pub open spec fn is_metadata(json: Seq<u8>) -> bool {
    is_bool_json(json) || is_number_json(json) || text_of_json(json) is Some || texts_of_json(
        json,
    ) is Ok
}

/// Every member is a value that may stand in metadata. An empty object has a piece
/// without a name, which is no member.
pub open spec fn all_metadata(pieces: Seq<(Option<Seq<u8>>, Seq<u8>)>) -> bool {
    forall|i: int|
        0 <= i < pieces.len() && (#[trigger] pieces[i]).0 is Some ==> is_metadata(pieces[i].1)
}

/// The text under a name; nothing if there is none, or more than one.
pub open spec fn text_under(
    members: Seq<(Option<Seq<char>>, Seq<u8>)>,
    name: Seq<char>,
) -> Option<Seq<char>> {
    match found_in(members, name) {
        FoundView::One(j) => text_of_json(j),
        _ => None,
    }
}

/// The number under a name; nothing if there is none, or more than one.
pub open spec fn number_under(
    members: Seq<(Option<Seq<char>>, Seq<u8>)>,
    name: Seq<char>,
) -> Option<u64> {
    match found_in(members, name) {
        FoundView::One(j) => number_of_json(j),
        _ => None,
    }
}

/// What a stored edge has beside its key is in order, and none of it twice: a time; a
/// document that is a text or `null`, if there is one; a status that is a text, if
/// there is one; and metadata, if there are any.
pub open spec fn rest_in_order(members: Seq<(Option<Seq<char>>, Seq<u8>)>) -> bool {
    &&& match found_in(members, "created_at"@) {
        FoundView::One(j) => is_time_json(j),
        _ => false,
    }
    &&& match found_in(members, "target_document_id"@) {
        FoundView::Missing => true,
        FoundView::One(j) => is_null_json(j) || text_of_json(j) is Some,
        FoundView::Many => false,
    }
    &&& match found_in(members, "target_status"@) {
        FoundView::Missing => true,
        FoundView::One(j) => text_of_json(j) is Some,
        FoundView::Many => false,
    }
    &&& match found_in(members, "metadata"@) {
        FoundView::Missing => true,
        FoundView::One(j) => is_object_json(j) && all_metadata(pieces_of(j)),
        FoundView::Many => false,
    }
}

/// The key of the edge that has these members; nothing if it is no edge. Members of
/// other names are not looked at.
pub open spec fn edge_of_members(members: Seq<(Option<Seq<char>>, Seq<u8>)>) -> Option<EdgeView> {
    match (
        text_under(members, "relation_id"@),
        number_under(members, "source_chunk_id"@),
        number_under(members, "target_chunk_id"@),
        text_under(members, "relation_type"@),
    ) {
        (Some(id), Some(source), Some(target), Some(kind)) => if rest_in_order(members) {
            Some(
                EdgeView {
                    relation_id: id,
                    source_chunk_id: source,
                    target_chunk_id: target,
                    relation_type: kind,
                },
            )
        } else {
            None
        },
        _ => None,
    }
}

/// The key of an edge in its stored form; nothing if the bytes are no edge. An edge is
/// an object, or a list of the values of its fields.
pub open spec fn edge_of_json(bytes: Seq<u8>) -> Option<EdgeView> {
    if is_object_json(bytes) {
        edge_of_members(named(pieces_of(bytes)))
    } else if is_list_json(bytes) && pieces_of(bytes).len() == EDGE_FIELDS {
        edge_of_members(listed(pieces_of(bytes)))
    } else {
        None
    }
}

/// What was found under a name.
pub enum Found<'a> {
    Missing,
    One(&'a Vec<u8>),
    Many,
}

/// What a find says.
pub open spec fn found_view(f: Found<'_>) -> FoundView {
    match f {
        Found::Missing => FoundView::Missing,
        Found::One(j) => FoundView::One(j@),
        Found::Many => FoundView::Many,
    }
}

fn find_member<'a>(members: &'a Vec<(Option<String>, Vec<u8>)>, name: &str) -> (r: Found<'a>)
    ensures
        found_view(r) == found_in(members_view(members@), name@),
{
    let ghost all = members_view(members@);
    let mut found: Found<'a> = Found::Missing;
    let mut i: usize = 0;
    proof {
        assert(all.subrange(0, 0) =~= Seq::empty());
    }
    while i < members.len()
        invariant
            i <= members@.len(),
            all == members_view(members@),
            found_view(found) == found_in(all.subrange(0, i as int), name@),
        decreases members.len() - i,
    {
        proof {
            let longer = all.subrange(0, i + 1);
            assert(longer.drop_last() =~= all.subrange(0, i as int));
            assert(longer.last() == all[i as int]);
        }
        let matches_name = match &members[i].0 {
            Some(k) => text_eq(k.as_str(), name),
            None => false,
        };
        if matches_name {
            found = match found {
                Found::Missing => Found::One(&members[i].1),
                _ => Found::Many,
            };
        }
        i = i + 1;
    }
    proof {
        assert(all.subrange(0, all.len() as int) =~= all);
    }
    found
}

fn metadata_in_order(json: &Vec<u8>) -> (r: bool)
    ensures
        r == (is_object_json(json@) && all_metadata(pieces_of(json@))),
{
    if !json_is_object(json) {
        return false;
    }
    let pieces = split_json(json);
    let ghost all = pieces_of(json@);
    let mut i: usize = 0;
    while i < pieces.len()
        invariant
            i <= pieces@.len(),
            all == pieces_view(pieces@),
            all == pieces_of(json@),
            forall|k: int|
                0 <= k < i && (#[trigger] all[k]).0 is Some ==> is_metadata(all[k].1),
        decreases pieces.len() - i,
    {
        if pieces[i].0.is_some() {
            let value = &pieces[i].1;
            let fits = json_is_bool(value) || json_is_number(value) || json_text(value).is_some()
                || texts_from_json(value.as_slice()).is_ok();
            if !fits {
                proof {
                    assert(all[i as int].0 is Some && !is_metadata(all[i as int].1));
                }
                return false;
            }
        }
        i = i + 1;
    }
    true
}

fn rest_is_in_order(members: &Vec<(Option<String>, Vec<u8>)>) -> (r: bool)
    ensures
        r == rest_in_order(members_view(members@)),
{
    let time = match find_member(members, "created_at") {
        Found::One(j) => json_is_time(j),
        _ => false,
    };
    let document = match find_member(members, "target_document_id") {
        Found::Missing => true,
        Found::One(j) => json_is_null(j) || json_text(j).is_some(),
        Found::Many => false,
    };
    let status = match find_member(members, "target_status") {
        Found::Missing => true,
        Found::One(j) => json_text(j).is_some(),
        Found::Many => false,
    };
    let metadata = match find_member(members, "metadata") {
        Found::Missing => true,
        Found::One(j) => metadata_in_order(j),
        Found::Many => false,
    };
    time && document && status && metadata
}

fn find_text(members: &Vec<(Option<String>, Vec<u8>)>, name: &str) -> (r: Option<String>)
    ensures
        text_option(r) == text_under(members_view(members@), name@),
{
    match find_member(members, name) {
        Found::One(j) => json_text(j),
        _ => None,
    }
}

fn find_number(members: &Vec<(Option<String>, Vec<u8>)>, name: &str) -> (r: Option<u64>)
    ensures
        r == number_under(members_view(members@), name@),
{
    match find_member(members, name) {
        Found::One(j) => json_number(j),
        _ => None,
    }
}

/// The key of the edge that has these members, given as names with JSON.
pub fn edge_from_members(members: &Vec<(Option<String>, Vec<u8>)>) -> (r: Option<EdgeKey>)
    ensures
        edge_view(r) == edge_of_members(members_view(members@)),
{
    if !rest_is_in_order(members) {
        return None;
    }
    match (
        find_text(members, "relation_id"),
        find_number(members, "source_chunk_id"),
        find_number(members, "target_chunk_id"),
        find_text(members, "relation_type"),
    ) {
        (
            Some(relation_id),
            Some(source_chunk_id),
            Some(target_chunk_id),
            Some(relation_type),
        ) => Some(EdgeKey { relation_id, source_chunk_id, target_chunk_id, relation_type }),
        _ => None,
    }
}

fn name_pieces(pieces: Vec<(Option<Vec<u8>>, Vec<u8>)>) -> (r: Vec<(Option<String>, Vec<u8>)>)
    ensures
        members_view(r@) == named(pieces_view(pieces@)),
{
    let ghost items = pieces@;
    let mut out: Vec<(Option<String>, Vec<u8>)> = Vec::new();
    let mut done: Ghost<int> = Ghost(0);
    for piece in it: pieces
        invariant
            it.seq() == items,
            done@ == it.index(),
            0 <= done@ <= items.len(),
            out@.len() == done@,
            forall|k: int|
                0 <= k < done@ ==> members_view(out@)[k] == #[trigger] named(
                    pieces_view(items),
                )[k],
    {
        let (key, value) = piece;
        let name = match &key {
            Some(raw) => json_text(raw),
            None => None,
        };
        let ghost before = members_view(out@);
        out.push((name, value));
        proof {
            assert(members_view(out@).drop_last() =~= before);
            assert forall|k: int| 0 <= k < done@ + 1 implies members_view(out@)[k]
                == #[trigger] named(pieces_view(items))[k] by {
                if k < done@ {
                    assert(members_view(out@)[k] == before[k]);
                }
            }
            done@ = done@ + 1;
        }
    }
    proof {
        assert(members_view(out@) =~= named(pieces_view(items)));
    }
    out
}

fn field_name(i: usize) -> (r: String)
    ensures
        r@ == edge_field(i as int),
{
    match i {
        0 => own("relation_id"),
        1 => own("source_chunk_id"),
        2 => own("target_chunk_id"),
        3 => own("target_document_id"),
        4 => own("relation_type"),
        5 => own("target_status"),
        6 => own("metadata"),
        _ => own("created_at"),
    }
}

fn list_pieces(pieces: Vec<(Option<Vec<u8>>, Vec<u8>)>) -> (r: Vec<(Option<String>, Vec<u8>)>)
    ensures
        members_view(r@) == listed(pieces_view(pieces@)),
{
    let ghost items = pieces@;
    let total: usize = pieces.len();
    let mut out: Vec<(Option<String>, Vec<u8>)> = Vec::new();
    let mut i: usize = 0;
    for piece in it: pieces
        invariant
            it.seq() == items,
            total == items.len(),
            i == it.index(),
            i <= total,
            out@.len() == i,
            forall|k: int|
                0 <= k < i ==> members_view(out@)[k] == #[trigger] listed(pieces_view(items))[k],
    {
        let ghost before = members_view(out@);
        out.push((Some(field_name(i)), piece.1));
        proof {
            assert(members_view(out@).drop_last() =~= before);
            assert forall|k: int| 0 <= k < i + 1 implies members_view(out@)[k]
                == #[trigger] listed(pieces_view(items))[k] by {
                if k < i {
                    assert(members_view(out@)[k] == before[k]);
                }
            }
        }
        i = i + 1;
    }
    proof {
        assert(members_view(out@) =~= listed(pieces_view(items)));
    }
    out
}

/// Reads the key of an edge out of its stored form.
pub fn edge_from_json(bytes: &Vec<u8>) -> (r: Option<EdgeKey>)
    ensures
        edge_view(r) == edge_of_json(bytes@),
{
    if json_is_object(bytes) {
        return edge_from_members(&name_pieces(split_json(bytes)));
    }
    if !json_is_list(bytes) {
        return None;
    }
    let pieces = split_json(bytes);
    proof {
        assert(pieces_view(pieces@).len() == pieces@.len());
    }
    if pieces.len() == EDGE_FIELDS {
        edge_from_members(&list_pieces(pieces))
    } else {
        None
    }
}

// ── Laws ────────────────────────────────────────────────────────────────

/// A byte that neither begins nor ends a text, an object or a list, and separates nothing.
pub open spec fn is_plain(c: u8) -> bool {
    c != 0x22 && c != 0x7b && c != 0x5b && c != 0x7d && c != 0x5d && c != 0x2c && c != 0x3a
}

proof fn lemma_plain_stretch(b: Seq<u8>, i: int, j: int)
    requires
        0 <= i <= j <= b.len(),
        !split_to(b, i).in_text,
        forall|k: int| i <= k < j ==> is_plain(#[trigger] b[k]),
    ensures
        split_to(b, j) == split_to(b, i),
    decreases j - i,
{
    if i < j {
        lemma_plain_stretch(b, i, j - 1);
        assert(is_plain(b[j - 1]));
    }
}

proof fn lemma_text_stretch(b: Seq<u8>, i: int, j: int)
    requires
        0 <= i <= j <= b.len(),
        split_to(b, i).in_text && !split_to(b, i).escaped,
        forall|k: int| i <= k < j ==> #[trigger] b[k] != 0x22 && b[k] != 0x5c,
    ensures
        split_to(b, j) == split_to(b, i),
    decreases j - i,
{
    if i < j {
        lemma_text_stretch(b, i, j - 1);
        assert(b[j - 1] != 0x22 && b[j - 1] != 0x5c);
    }
}

proof fn lemma_inner_stretch(b: Seq<u8>, i: int, j: int)
    requires
        0 <= i <= j <= b.len(),
        !split_to(b, i).in_text && split_to(b, i).depth > 1,
        forall|k: int|
            i <= k < j ==> is_plain(#[trigger] b[k]) || b[k] == 0x2c || b[k] == 0x3a,
    ensures
        split_to(b, j) == split_to(b, i),
    decreases j - i,
{
    if i < j {
        lemma_inner_stretch(b, i, j - 1);
        assert(is_plain(b[j - 1]) || b[j - 1] == 0x2c || b[j - 1] == 0x3a);
    }
}

/// The members of an object are told apart by commas, and each is a name and a value, told
/// apart by the colon.
pub proof fn law_members_are_told_apart(n: Seq<u8>, v: Seq<u8>, m: Seq<u8>, w: Seq<u8>)
    requires
        forall|i: int| 0 <= i < n.len() ==> is_plain(#[trigger] n[i]),
        forall|i: int| 0 <= i < v.len() ==> is_plain(#[trigger] v[i]),
        forall|i: int| 0 <= i < m.len() ==> is_plain(#[trigger] m[i]),
        forall|i: int| 0 <= i < w.len() ==> is_plain(#[trigger] w[i]),
    ensures
        pieces_of(
            seq![0x7bu8] + n + seq![0x3au8] + v + seq![0x2cu8] + m + seq![0x3au8] + w + seq![0x7du8],
        ) == seq![(Some(n), v), (Some(m), w)],
{
    let b = seq![0x7bu8] + n + seq![0x3au8] + v + seq![0x2cu8] + m + seq![0x3au8] + w
        + seq![0x7du8];
    let p1: int = n.len() as int + 1;
    let p2: int = p1 + 1 + v.len();
    let p3: int = p2 + 1 + m.len();
    let p4: int = p3 + 1 + w.len();
    assert(b.len() == p4 + 1);
    assert(b[0] == 0x7b && b[p1] == 0x3a && b[p2] == 0x2c && b[p3] == 0x3a && b[p4] == 0x7d);
    assert forall|k: int| 1 <= k < p1 implies is_plain(#[trigger] b[k]) by {
        assert(b[k] == n[k - 1]);
    }
    assert forall|k: int| p1 + 1 <= k < p2 implies is_plain(#[trigger] b[k]) by {
        assert(b[k] == v[k - p1 - 1]);
    }
    assert forall|k: int| p2 + 1 <= k < p3 implies is_plain(#[trigger] b[k]) by {
        assert(b[k] == m[k - p2 - 1]);
    }
    assert forall|k: int| p3 + 1 <= k < p4 implies is_plain(#[trigger] b[k]) by {
        assert(b[k] == w[k - p3 - 1]);
    }
    reveal_with_fuel(split_to, 2);
    assert(split_to(b, 1) == split_next(b, split_to(b, 0), 0));
    lemma_plain_stretch(b, 1, p1);
    assert(split_to(b, p1 + 1) == split_next(b, split_to(b, p1), p1));
    lemma_plain_stretch(b, p1 + 1, p2);
    assert(split_to(b, p2 + 1) == split_next(b, split_to(b, p2), p2));
    lemma_plain_stretch(b, p2 + 1, p3);
    assert(split_to(b, p3 + 1) == split_next(b, split_to(b, p3), p3));
    lemma_plain_stretch(b, p3 + 1, p4);
    assert(split_to(b, p4 + 1) == split_next(b, split_to(b, p4), p4));
    assert(b.subrange(1, p1) =~= n);
    assert(b.subrange(p1 + 1, p2) =~= v);
    assert(b.subrange(p2 + 1, p3) =~= m);
    assert(b.subrange(p3 + 1, p4) =~= w);
    assert(pieces_of(b) =~= seq![(Some(n), v), (Some(m), w)]);
}

/// The elements of a list are told apart by commas, and none has a name.
pub proof fn law_elements_are_told_apart(v: Seq<u8>, w: Seq<u8>)
    requires
        forall|i: int| 0 <= i < v.len() ==> is_plain(#[trigger] v[i]),
        forall|i: int| 0 <= i < w.len() ==> is_plain(#[trigger] w[i]),
    ensures
        pieces_of(seq![0x5bu8] + v + seq![0x2cu8] + w + seq![0x5du8]) == seq![
            (None::<Seq<u8>>, v),
            (None::<Seq<u8>>, w),
        ],
{
    let b = seq![0x5bu8] + v + seq![0x2cu8] + w + seq![0x5du8];
    let p1: int = v.len() as int + 1;
    let p2: int = p1 + 1 + w.len();
    assert(b.len() == p2 + 1);
    assert(b[0] == 0x5b && b[p1] == 0x2c && b[p2] == 0x5d);
    assert forall|k: int| 1 <= k < p1 implies is_plain(#[trigger] b[k]) by {
        assert(b[k] == v[k - 1]);
    }
    assert forall|k: int| p1 + 1 <= k < p2 implies is_plain(#[trigger] b[k]) by {
        assert(b[k] == w[k - p1 - 1]);
    }
    reveal_with_fuel(split_to, 2);
    assert(split_to(b, 1) == split_next(b, split_to(b, 0), 0));
    lemma_plain_stretch(b, 1, p1);
    assert(split_to(b, p1 + 1) == split_next(b, split_to(b, p1), p1));
    lemma_plain_stretch(b, p1 + 1, p2);
    assert(split_to(b, p2 + 1) == split_next(b, split_to(b, p2), p2));
    assert(b.subrange(1, p1) =~= v);
    assert(b.subrange(p1 + 1, p2) =~= w);
    assert(pieces_of(b) =~= seq![(None::<Seq<u8>>, v), (None::<Seq<u8>>, w)]);
}

/// Nothing inside a text is cut: neither a comma nor a bracket in it counts.
pub proof fn law_texts_are_not_cut(n: Seq<u8>, t: Seq<u8>)
    requires
        forall|i: int| 0 <= i < n.len() ==> is_plain(#[trigger] n[i]),
        forall|i: int| 0 <= i < t.len() ==> #[trigger] t[i] != 0x22 && t[i] != 0x5c,
    ensures
        pieces_of(
            seq![0x7bu8] + n + seq![0x3au8] + (seq![0x22u8] + t + seq![0x22u8]) + seq![0x7du8],
        ) == seq![(Some(n), seq![0x22u8] + t + seq![0x22u8])],
{
    let q = seq![0x22u8] + t + seq![0x22u8];
    let b = seq![0x7bu8] + n + seq![0x3au8] + q + seq![0x7du8];
    let p1: int = n.len() as int + 1;
    let p2: int = p1 + 2 + t.len();
    assert(b.len() == p2 + 2);
    assert(b[0] == 0x7b && b[p1] == 0x3a && b[p1 + 1] == 0x22 && b[p2] == 0x22 && b[p2 + 1]
        == 0x7d);
    assert forall|k: int| 1 <= k < p1 implies is_plain(#[trigger] b[k]) by {
        assert(b[k] == n[k - 1]);
    }
    assert forall|k: int| p1 + 2 <= k < p2 implies #[trigger] b[k] != 0x22 && b[k] != 0x5c by {
        assert(b[k] == t[k - p1 - 2]);
    }
    reveal_with_fuel(split_to, 2);
    assert(split_to(b, 1) == split_next(b, split_to(b, 0), 0));
    lemma_plain_stretch(b, 1, p1);
    assert(split_to(b, p1 + 1) == split_next(b, split_to(b, p1), p1));
    assert(split_to(b, p1 + 2) == split_next(b, split_to(b, p1 + 1), p1 + 1));
    lemma_text_stretch(b, p1 + 2, p2);
    assert(split_to(b, p2 + 1) == split_next(b, split_to(b, p2), p2));
    assert(split_to(b, p2 + 2) == split_next(b, split_to(b, p2 + 1), p2 + 1));
    assert(b.subrange(1, p1) =~= n);
    assert(b.subrange(p1 + 1, p2 + 1) =~= q);
    assert(pieces_of(b) =~= seq![(Some(n), q)]);
}

/// Nothing inside an inner list or object is cut: its commas and colons are its own.
pub proof fn law_inner_parts_are_not_cut(n: Seq<u8>, t: Seq<u8>)
    requires
        forall|i: int| 0 <= i < n.len() ==> is_plain(#[trigger] n[i]),
        forall|i: int|
            0 <= i < t.len() ==> is_plain(#[trigger] t[i]) || t[i] == 0x2c || t[i] == 0x3a,
    ensures
        pieces_of(
            seq![0x7bu8] + n + seq![0x3au8] + (seq![0x5bu8] + t + seq![0x5du8]) + seq![0x7du8],
        ) == seq![(Some(n), seq![0x5bu8] + t + seq![0x5du8])],
{
    let q = seq![0x5bu8] + t + seq![0x5du8];
    let b = seq![0x7bu8] + n + seq![0x3au8] + q + seq![0x7du8];
    let p1: int = n.len() as int + 1;
    let p2: int = p1 + 2 + t.len();
    assert(b.len() == p2 + 2);
    assert(b[0] == 0x7b && b[p1] == 0x3a && b[p1 + 1] == 0x5b && b[p2] == 0x5d && b[p2 + 1]
        == 0x7d);
    assert forall|k: int| 1 <= k < p1 implies is_plain(#[trigger] b[k]) by {
        assert(b[k] == n[k - 1]);
    }
    assert forall|k: int| p1 + 2 <= k < p2 implies is_plain(#[trigger] b[k]) || b[k] == 0x2c || b[k]
        == 0x3a by {
        assert(b[k] == t[k - p1 - 2]);
    }
    reveal_with_fuel(split_to, 2);
    assert(split_to(b, 1) == split_next(b, split_to(b, 0), 0));
    lemma_plain_stretch(b, 1, p1);
    assert(split_to(b, p1 + 1) == split_next(b, split_to(b, p1), p1));
    assert(split_to(b, p1 + 2) == split_next(b, split_to(b, p1 + 1), p1 + 1));
    lemma_inner_stretch(b, p1 + 2, p2);
    assert(split_to(b, p2 + 1) == split_next(b, split_to(b, p2), p2));
    assert(split_to(b, p2 + 2) == split_next(b, split_to(b, p2 + 1), p2 + 1));
    assert(b.subrange(1, p1) =~= n);
    assert(b.subrange(p1 + 1, p2 + 1) =~= q);
    assert(pieces_of(b) =~= seq![(Some(n), q)]);
}

proof fn lemma_missing(members: Seq<(Option<Seq<char>>, Seq<u8>)>, name: Seq<char>)
    requires
        forall|i: int| 0 <= i < members.len() ==> (#[trigger] members[i]).0 != Some(name),
    ensures
        found_in(members, name) is Missing,
    decreases members.len(),
{
    if members.len() > 0 {
        let init = members.drop_last();
        assert(forall|i: int| 0 <= i < init.len() ==> init[i] == members[i]);
        lemma_missing(init, name);
        assert(members[members.len() - 1].0 != Some(name));
    }
}

proof fn lemma_found_once(members: Seq<(Option<Seq<char>>, Seq<u8>)>, name: Seq<char>, i: int)
    requires
        0 <= i < members.len(),
        members[i].0 == Some(name),
        forall|j: int| 0 <= j < members.len() && j != i ==> (#[trigger] members[j]).0 != Some(name),
    ensures
        found_in(members, name) == FoundView::One(members[i].1),
    decreases members.len(),
{
    let init = members.drop_last();
    let n = members.len() - 1;
    assert(forall|k: int| 0 <= k < init.len() ==> init[k] == members[k]);
    if i == n {
        lemma_missing(init, name);
    } else {
        lemma_found_once(init, name, i);
        assert(members[n].0 != Some(name));
    }
}

proof fn lemma_found_again(
    members: Seq<(Option<Seq<char>>, Seq<u8>)>,
    name: Seq<char>,
    i: int,
    j: int,
)
    requires
        0 <= i < j < members.len(),
        members[i].0 == Some(name),
        members[j].0 == Some(name),
    ensures
        found_in(members, name) is Many,
    decreases members.len(),
{
    let init = members.drop_last();
    let n = members.len() - 1;
    if j < n {
        assert(init[i] == members[i] && init[j] == members[j]);
        lemma_found_again(init, name, i, j);
    } else {
        lemma_found_some(init, name, i);
    }
}

proof fn lemma_found_some(members: Seq<(Option<Seq<char>>, Seq<u8>)>, name: Seq<char>, i: int)
    requires
        0 <= i < members.len(),
        members[i].0 == Some(name),
    ensures
        !(found_in(members, name) is Missing),
    decreases members.len(),
{
    let init = members.drop_last();
    if i < init.len() {
        assert(init[i] == members[i]);
        lemma_found_some(init, name, i);
    }
}

/// A member is found where its name occurs, and only once where it occurs once; a name that
/// occurs twice is told as such.
pub proof fn law_members_are_found_by_name(
    members: Seq<(Option<Seq<char>>, Seq<u8>)>,
    name: Seq<char>,
    i: int,
    j: int,
)
    requires
        0 <= i < j < members.len(),
    ensures
        (forall|k: int| 0 <= k < members.len() ==> (#[trigger] members[k]).0 != Some(name))
            ==> found_in(members, name) is Missing,
        members[i].0 == Some(name) && (forall|k: int|
            0 <= k < members.len() && k != i ==> (#[trigger] members[k]).0 != Some(name))
            ==> found_in(members, name) == FoundView::One(members[i].1),
        members[i].0 == Some(name) && members[j].0 == Some(name) ==> found_in(
            members,
            name,
        ) is Many,
{
    if forall|k: int| 0 <= k < members.len() ==> (#[trigger] members[k]).0 != Some(name) {
        lemma_missing(members, name);
    }
    if members[i].0 == Some(name) && (forall|k: int|
        0 <= k < members.len() && k != i ==> (#[trigger] members[k]).0 != Some(name)) {
        lemma_found_once(members, name, i);
    }
    if members[i].0 == Some(name) && members[j].0 == Some(name) {
        lemma_found_again(members, name, i, j);
    }
}

/// An edge is read from its members: its id, source, target and type from those of these
/// names, each of which must be there once.
pub proof fn law_edge_is_its_members(members: Seq<(Option<Seq<char>>, Seq<u8>)>, e: EdgeView)
    requires
        edge_of_members(members) == Some(e),
    ensures
        (found_in(members, "relation_id"@) matches FoundView::One(j) && text_of_json(j) == Some(
            e.relation_id,
        )),
        (found_in(members, "source_chunk_id"@) matches FoundView::One(j) && number_of_json(j)
            == Some(e.source_chunk_id)),
        (found_in(members, "target_chunk_id"@) matches FoundView::One(j) && number_of_json(j)
            == Some(e.target_chunk_id)),
        (found_in(members, "relation_type"@) matches FoundView::One(j) && text_of_json(j) == Some(
            e.relation_type,
        )),
        (found_in(members, "created_at"@) matches FoundView::One(j) && is_time_json(j)),
        !(found_in(members, "target_document_id"@) is Many),
        !(found_in(members, "target_status"@) is Many),
        !(found_in(members, "metadata"@) is Many),
{
}

/// In an edge that is written as a list the members stand in this order.
pub proof fn law_listed_edge_members(pieces: Seq<(Option<Seq<u8>>, Seq<u8>)>)
    requires
        pieces.len() == 8,
    ensures
        listed(pieces) == seq![
            (Some("relation_id"@), pieces[0].1),
            (Some("source_chunk_id"@), pieces[1].1),
            (Some("target_chunk_id"@), pieces[2].1),
            (Some("target_document_id"@), pieces[3].1),
            (Some("relation_type"@), pieces[4].1),
            (Some("target_status"@), pieces[5].1),
            (Some("metadata"@), pieces[6].1),
            (Some("created_at"@), pieces[7].1),
        ],
{
    assert(listed(pieces) =~= seq![
        (Some("relation_id"@), pieces[0].1),
        (Some("source_chunk_id"@), pieces[1].1),
        (Some("target_chunk_id"@), pieces[2].1),
        (Some("target_document_id"@), pieces[3].1),
        (Some("relation_type"@), pieces[4].1),
        (Some("target_status"@), pieces[5].1),
        (Some("metadata"@), pieces[6].1),
        (Some("created_at"@), pieces[7].1),
    ]);
}

/// What is neither an object nor a list of 8 elements is no edge.
pub proof fn law_other_json_is_no_edge(bytes: Seq<u8>)
    ensures
        !is_object_json(bytes) && !is_list_json(bytes) ==> edge_of_json(bytes) is None,
        !is_object_json(bytes) && pieces_of(bytes).len() != 8 ==> edge_of_json(bytes) is None,
        is_object_json(bytes) ==> edge_of_json(bytes) == edge_of_members(named(pieces_of(bytes))),
        !is_object_json(bytes) && is_list_json(bytes) && pieces_of(bytes).len() == 8
            ==> edge_of_json(bytes) == edge_of_members(listed(pieces_of(bytes))),
{
}

/// The metadata of an edge is an object each of whose values is a truth value, a number, a
/// text or a list of texts.
pub proof fn law_edge_metadata_is_typed(members: Seq<(Option<Seq<char>>, Seq<u8>)>, j: Seq<u8>, i: int)
    requires
        edge_of_members(members) is Some,
        found_in(members, "metadata"@) == FoundView::One(j),
    ensures
        is_object_json(j),
        0 <= i < pieces_of(j).len() && pieces_of(j)[i].0 is Some ==> is_bool_json(
            pieces_of(j)[i].1,
        ) || is_number_json(pieces_of(j)[i].1) || text_of_json(pieces_of(j)[i].1) is Some
            || texts_of_json(pieces_of(j)[i].1) is Ok,
{
}

/// Bytes read as a table of contents, or as texts, exactly where parsing gives these.
pub proof fn law_reading_back(bytes: Seq<u8>, toc: Seq<(Seq<char>, u64)>, texts: Seq<Seq<char>>)
    ensures
        reads_as_toc(bytes, toc) <==> toc_of_json(bytes) == Ok::<Seq<(Seq<char>, u64)>, Seq<char>>(
            toc,
        ),
        reads_as_texts(bytes, texts) <==> texts_of_json(bytes) == Ok::<Seq<Seq<char>>, Seq<char>>(
            texts,
        ),
{
}

} // verus!
