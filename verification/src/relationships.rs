//! Parent and sibling relationships between chunks, with their file format.
//!
//! Two indexes: by chunk, its parent and its group; by group, its chunks.
use crate::assoc::{
    distinct_keys, has_key, lemma_filter_contains, lemma_filter_push, lemma_pairs_insert, lookup,
    pairs_map,
};
use crate::duplicate::{duplicate_text, text_view, Duplicate};
use crate::id_map::{in_id_order, IdMap};
use crate::le::{
    le16, le32, le64, lemma_le16, lemma_le32, lemma_le64, push_bytes, push_u16, push_u32, push_u64,
    read_u16, read_u32, read_u64, u16_at, u32_at, u64_at,
};
use crate::string_map::StringMap;
use vstd::prelude::*;
use vstd::slice::*;
use vstd::string::*;
use vstd::utf8::*;

verus! {

/// A chunk's parent and group.
#[derive(Debug, Clone)]
pub struct Relationship {
    pub parent_id: Option<u64>,
    pub group_id: Option<String>,
}

/// What a relationship says.
#[verifier::ext_equal]
pub struct RelationshipView {
    pub parent_id: Option<u64>,
    pub group_id: Option<Seq<char>>,
}

impl View for Relationship {
    type V = RelationshipView;

    open spec fn view(&self) -> RelationshipView {
        RelationshipView { parent_id: self.parent_id, group_id: text_view(self.group_id) }
    }
}

impl Duplicate for Vec<u64> {
    fn duplicate(&self) -> (r: Vec<u64>) {
        let r = self.clone();
        assert(r@ =~= self@);
        r
    }
}

/// The relationships of a collection's chunks.
#[derive(Debug)]
pub struct RelationshipStore {
    forward: IdMap<Relationship>,
    groups: StringMap<Vec<u64>>,
}

/// What a relationship store holds: each chunk's parent and group, and each
/// group's chunks in the order in which they were added.
#[verifier::ext_equal]
pub struct RelationshipsView {
    pub forward: Map<u64, RelationshipView>,
    pub groups: Map<Seq<char>, Seq<u64>>,
}

/// No relationships.
pub open spec fn no_relationships() -> RelationshipsView {
    RelationshipsView { forward: Map::empty(), groups: Map::empty() }
}

/// The chunks of a group, none when there is no such group.
pub open spec fn group_members(groups: Map<Seq<char>, Seq<u64>>, g: Seq<char>) -> Seq<u64> {
    if groups.contains_key(g) {
        groups[g]
    } else {
        Seq::empty()
    }
}

/// The groups without a chunk in the list of the group that it was in.
pub open spec fn groups_without(s: RelationshipsView, id: u64) -> Map<Seq<char>, Seq<u64>> {
    match former_group(s, id) {
        Some(g) => if s.groups.contains_key(g) {
            s.groups.insert(g, s.groups[g].filter(other_than(id)))
        } else {
            s.groups
        },
        None => s.groups,
    }
}

/// The group that a chunk is in.
pub open spec fn former_group(s: RelationshipsView, id: u64) -> Option<Seq<char>> {
    match lookup(s.forward, id) {
        Some(r) => r.group_id,
        None => None,
    }
}

/// The store with one relationship more. A chunk that is recorded again leaves
/// the group that it was in.
pub open spec fn with_relationship(
    s: RelationshipsView,
    id: u64,
    rel: RelationshipView,
) -> RelationshipsView {
    RelationshipsView {
        forward: s.forward.insert(id, rel),
        groups: match rel.group_id {
            Some(g) => groups_without(s, id).insert(
                g,
                group_members(groups_without(s, id), g).push(id),
            ),
            None => groups_without(s, id),
        },
    }
}

/// The list of a group holds exactly the chunks that name the group, each once.
pub open spec fn groups_exact(s: RelationshipsView) -> bool {
    &&& forall|g: Seq<char>, id: u64|
        #![trigger group_members(s.groups, g).contains(id)]
        group_members(s.groups, g).contains(id) <==> s.forward.contains_key(id)
            && s.forward[id].group_id == Some(g)
    &&& forall|g: Seq<char>| (#[trigger] group_members(s.groups, g)).no_duplicates()
}

/// The parent of a chunk.
pub open spec fn parent_in(s: RelationshipsView, id: u64) -> Option<u64> {
    match lookup(s.forward, id) {
        Some(r) => r.parent_id,
        None => None,
    }
}

/// Every id but one.
pub open spec fn other_than(id: u64) -> spec_fn(u64) -> bool {
    |x: u64| x != id
}

/// The other chunks in the group of a chunk, in the order in which they were
/// added.
pub open spec fn siblings_in(s: RelationshipsView, id: u64) -> Seq<u64> {
    match lookup(s.forward, id) {
        Some(r) => match r.group_id {
            Some(g) => group_members(s.groups, g).filter(other_than(id)),
            None => Seq::empty(),
        },
        None => Seq::empty(),
    }
}

impl View for RelationshipStore {
    type V = RelationshipsView;

    closed spec fn view(&self) -> RelationshipsView {
        RelationshipsView { forward: self.forward@, groups: self.groups@ }
    }
}

/// The parent of a chunk to be ingested: its batch reference when that names a
/// chunk of the batch, else the parent that it gives.
pub open spec fn resolved_parent(
    clients: Map<Seq<char>, u64>,
    pid: Option<u64>,
    pref: Option<Seq<char>>,
) -> Option<u64> {
    match pref {
        Some(r) => if clients.contains_key(r) {
            Some(clients[r])
        } else {
            pid
        },
        None => pid,
    }
}

/// The ids of a list but one.
fn without_id(members: &Vec<u64>, id: u64) -> (r: Vec<u64>)
    ensures
        r@ == members@.filter(other_than(id)),
{
    let ghost keep = other_than(id);
    let mut out: Vec<u64> = Vec::new();
    let mut i: usize = 0;
    proof {
        reveal(Seq::filter);
        assert(members@.subrange(0, 0) =~= Seq::<u64>::empty());
    }
    while i < members.len()
        invariant
            i <= members@.len(),
            keep == other_than(id),
            out@ == members@.subrange(0, i as int).filter(keep),
        decreases members.len() - i,
    {
        let m: u64 = members[i];
        proof {
            let shorter = members@.subrange(0, i as int);
            let longer = members@.subrange(0, i + 1);
            assert(longer =~= shorter.push(m));
            lemma_filter_push(shorter, m, keep);
        }
        if m != id {
            out.push(m);
        }
        i = i + 1;
    }
    proof {
        assert(members@.subrange(0, members@.len() as int) =~= members@);
    }
    out
}

impl RelationshipStore {
    /// The relationships in increasing order of the chunk ids.
    pub closed spec fn entries(&self) -> Seq<(u64, RelationshipView)> {
        self.forward.pairs()
    }

    /// An empty store.
    pub fn new() -> (r: RelationshipStore)
        ensures
            r@ == no_relationships(),
            groups_exact(r@),
    {
        RelationshipStore { forward: IdMap::new(), groups: StringMap::new() }
    }

    /// Records a chunk's parent and group.
    pub fn add(&mut self, chunk_id: u64, parent_id: Option<u64>, group_id: Option<String>)
        ensures
            final(self)@ == with_relationship(
                old(self)@,
                chunk_id,
                RelationshipView { parent_id, group_id: text_view(group_id) },
            ),
            groups_exact(old(self)@) ==> groups_exact(final(self)@),
    {
        let ghost rel = RelationshipView { parent_id, group_id: text_view(group_id) };
        let copy = duplicate_text(&group_id);
        let former = match self.forward.get(chunk_id) {
            Some(r) => duplicate_text(&r.group_id),
            None => None,
        };
        if let Some(g) = former {
            if let Some(members) = self.groups.remove(g.as_str()) {
                self.groups.insert(g, without_id(&members, chunk_id));
            }
        }
        proof {
            assert(self.groups@ =~= groups_without(old(self)@, chunk_id));
        }
        self.forward.insert(chunk_id, Relationship { parent_id, group_id: copy });
        if let Some(gid) = group_id {
            let mut members: Vec<u64> = match self.groups.remove(gid.as_str()) {
                Some(m) => m,
                None => Vec::new(),
            };
            members.push(chunk_id);
            self.groups.insert(gid, members);
        }
        proof {
            let now = with_relationship(old(self)@, chunk_id, rel);
            assert(self@.groups =~= now.groups);
            assert(self@ == now);
            if groups_exact(old(self)@) {
                lemma_add_keeps_groups(old(self)@, chunk_id, rel);
            }
        }
    }

    /// The parent of a chunk.
    pub fn get_parent(&self, chunk_id: u64) -> (r: Option<u64>)
        ensures
            r == parent_in(self@, chunk_id),
    {
        match self.forward.get(chunk_id) {
            Some(rel) => rel.parent_id,
            None => None,
        }
    }

    /// The other chunks in the group of a chunk.
    pub fn get_siblings(&self, chunk_id: u64) -> (r: Vec<u64>)
        ensures
            r@ == siblings_in(self@, chunk_id),
    {
        let gid = match self.forward.get(chunk_id) {
            Some(rel) => match &rel.group_id {
                Some(g) => g,
                None => {
                    return Vec::new();
                },
            },
            None => {
                return Vec::new();
            },
        };
        match self.groups.get(gid.as_str()) {
            Some(members) => without_id(members, chunk_id),
            None => {
                proof {
                    reveal(Seq::filter);
                }
                Vec::new()
            },
        }
    }

    /// The parents and the siblings of a set of candidates: candidates without a
    /// parent, or without siblings, are left out of the map in question.
    pub fn build_scoring_maps(&self, candidate_ids: &[u64]) -> (r: (IdMap<u64>, IdMap<Vec<u64>>))
        ensures
            forall|id: u64| #[trigger]
                r.0@.contains_key(id) <==> candidate_ids@.contains(id) && parent_in(
                    self@,
                    id,
                ) is Some,
            forall|id: u64| #[trigger]
                r.0@.contains_key(id) ==> Some(r.0@[id]) == parent_in(self@, id),
            forall|id: u64| #[trigger]
                r.1@.contains_key(id) <==> candidate_ids@.contains(id) && siblings_in(
                    self@,
                    id,
                ).len() > 0,
            forall|id: u64| #[trigger]
                r.1@.contains_key(id) ==> r.1@[id] == siblings_in(self@, id),
    {
        let mut parents: IdMap<u64> = IdMap::new();
        let mut siblings: IdMap<Vec<u64>> = IdMap::new();
        let mut i: usize = 0;
        while i < candidate_ids.len()
            invariant
                i <= candidate_ids@.len(),
                forall|id: u64| #[trigger]
                    parents@.contains_key(id) <==> candidate_ids@.subrange(0, i as int).contains(id)
                        && parent_in(self@, id) is Some,
                forall|id: u64| #[trigger]
                    parents@.contains_key(id) ==> Some(parents@[id]) == parent_in(self@, id),
                forall|id: u64| #[trigger]
                    siblings@.contains_key(id) <==> candidate_ids@.subrange(0, i as int).contains(
                        id,
                    ) && siblings_in(self@, id).len() > 0,
                forall|id: u64| #[trigger]
                    siblings@.contains_key(id) ==> siblings@[id] == siblings_in(self@, id),
            decreases candidate_ids.len() - i,
        {
            let cid: u64 = candidate_ids[i];
            if let Some(pid) = self.get_parent(cid) {
                parents.insert(cid, pid);
            }
            let s = self.get_siblings(cid);
            if s.len() > 0 {
                siblings.insert(cid, s);
            }
            proof {
                let shorter = candidate_ids@.subrange(0, i as int);
                let longer = candidate_ids@.subrange(0, i + 1);
                assert(longer =~= shorter.push(cid));
                assert forall|id: u64| longer.contains(id) == (shorter.contains(id) || id == cid) by {
                    if shorter.contains(id) {
                        let k = choose|k: int| 0 <= k < shorter.len() && shorter[k] == id;
                        assert(longer[k] == id);
                    }
                    if id == cid {
                        assert(longer[i as int] == id);
                    }
                }
            }
            i = i + 1;
        }
        proof {
            assert(candidate_ids@.subrange(0, candidate_ids@.len() as int) =~= candidate_ids@);
        }
        (parents, siblings)
    }

    /// Resolves the parent references of a batch: one result for each position
    /// that all three lists have.
    pub fn resolve_batch_refs(
        client_id_map: &StringMap<u64>,
        parent_ids: &[Option<u64>],
        parent_refs: &[Option<String>],
        group_ids: &[Option<String>],
    ) -> (r: Vec<(Option<u64>, Option<String>)>)
        ensures
            r@.len() <= parent_ids@.len(),
            r@.len() <= parent_refs@.len(),
            r@.len() <= group_ids@.len(),
            r@.len() == parent_ids@.len() || r@.len() == parent_refs@.len() || r@.len()
                == group_ids@.len(),
            forall|i: int|
                0 <= i < r@.len() ==> (#[trigger] r@[i]).0 == resolved_parent(
                    client_id_map@,
                    parent_ids@[i],
                    text_view(parent_refs@[i]),
                ) && text_view(r@[i].1) == text_view(group_ids@[i]),
    {
        let mut out: Vec<(Option<u64>, Option<String>)> = Vec::new();
        let mut i: usize = 0;
        while i < parent_ids.len() && i < parent_refs.len() && i < group_ids.len()
            invariant
                i <= parent_ids@.len(),
                i <= parent_refs@.len(),
                i <= group_ids@.len(),
                out@.len() == i,
                forall|k: int|
                    0 <= k < i ==> (#[trigger] out@[k]).0 == resolved_parent(
                        client_id_map@,
                        parent_ids@[k],
                        text_view(parent_refs@[k]),
                    ) && text_view(out@[k].1) == text_view(group_ids@[k]),
            decreases parent_ids.len() - i,
        {
            let pid: Option<u64> = parent_ids[i];
            let parent: Option<u64> = match &parent_refs[i] {
                Some(pr) => match client_id_map.get(pr.as_str()) {
                    Some(id) => Some(*id),
                    None => pid,
                },
                None => pid,
            };
            out.push((parent, duplicate_text(&group_ids[i])));
            i = i + 1;
        }
        out
    }

    /// The number of chunks with a relationship.
    pub fn len(&self) -> (r: usize)
        ensures
            r == self@.forward.dom().len(),
            self@.forward.dom().finite(),
    {
        self.forward.len()
    }

    /// The bytes of the relationship file: a 32-bit count, then one record for
    /// each chunk, in increasing order of the ids.
    pub fn save(&self) -> (r: Vec<u8>)
        ensures
            r@ == saved_bytes(self.entries()),
            self@.forward == pairs_map(self.entries()),
            distinct_keys(self.entries()),
            in_id_order(self.entries()),
    {
        let n: usize = self.forward.len();
        let mut buf: Vec<u8> = Vec::new();
        push_u32(&mut buf, count_field(n));
        let mut i: usize = 0;
        proof {
            assert(self.entries().subrange(0, 0) =~= Seq::empty());
            assert(buf@ =~= le32((n as nat % 0x1_0000_0000) as u32) + records(
                self.entries().subrange(0, 0),
            ));
        }
        while i < n
            invariant
                n == self.entries().len(),
                i <= n,
                buf@ == le32((n as nat % 0x1_0000_0000) as u32) + records(
                    self.entries().subrange(0, i as int),
                ),
            decreases n - i,
        {
            let id: u64 = self.forward.key_at(i);
            let rel = self.forward.value_at(i);
            let ghost before = buf@;
            push_u64(&mut buf, id);
            match rel.parent_id {
                Some(pid) => {
                    buf.push(1);
                    push_u64(&mut buf, pid);
                },
                None => {
                    buf.push(0);
                    push_u64(&mut buf, 0);
                },
            }
            match &rel.group_id {
                Some(gid) => {
                    let bytes = gid.as_str().as_bytes();
                    push_u16(&mut buf, group_field(bytes.len()));
                    push_bytes(&mut buf, bytes);
                },
                None => {
                    push_u16(&mut buf, 0);
                },
            }
            proof {
                assert(buf@ =~= before + record(self.entries()[i as int]));
                let shorter = self.entries().subrange(0, i as int);
                let longer = self.entries().subrange(0, i + 1);
                assert(longer.drop_last() =~= shorter);
                assert(longer.last() == self.entries()[i as int]);
                assert(buf@ =~= le32((n as nat % 0x1_0000_0000) as u32) + records(longer));
            }
            i = i + 1;
        }
        proof {
            assert(self.entries().subrange(0, n as int) =~= self.entries());
        }
        buf
    }

    /// Reads a relationship file. A file that breaks off gives the records that
    /// are whole; one too short for a count gives none.
    pub fn load(buf: &[u8]) -> (r: RelationshipStore)
        ensures
            r@ == loaded(buf@),
            groups_exact(r@),
    {
        let mut store = RelationshipStore::new();
        if buf.len() < 4 {
            return store;
        }
        let count: u32 = read_u32(buf, 0);
        let mut pos: usize = 4;
        let mut k: u32 = 0;
        let len: usize = buf.len();
        proof {
            assert(loaded(buf@) == read_records(store@, buf@, 4, count as nat));
        }
        while k < count
            invariant_except_break
                k <= count,
                pos <= len,
                loaded(buf@) == read_records(store@, buf@, pos as int, (count - k) as nat),
            invariant
                len == buf@.len(),
                groups_exact(store@),
            ensures
                store@ == loaded(buf@),
            decreases count - k,
        {
            if len - pos < 17 {
                break;
            }
            let chunk_id: u64 = read_u64(buf, pos);
            let has_parent: u8 = buf[pos + 8];
            let parent_raw: u64 = read_u64(buf, pos + 9);
            let parent_id: Option<u64> = if has_parent == 1 {
                Some(parent_raw)
            } else {
                None
            };
            if len - pos < 19 {
                break;
            }
            let group_len: usize = read_u16(buf, pos + 17) as usize;
            let next: usize = pos + 19;
            let ghost before = store@;
            if group_len > 0 && group_len <= len - next {
                let gid = lossy_string(slice_subrange(buf, next, next + group_len));
                store.add(chunk_id, parent_id, Some(gid));
                pos = next + group_len;
            } else {
                store.add(chunk_id, parent_id, None);
                pos = next;
            }
            k = k + 1;
        }
        store
    }
}

proof fn lemma_filter_once(m: Seq<u64>, keep: spec_fn(u64) -> bool)
    requires
        m.no_duplicates(),
    ensures
        m.filter(keep).no_duplicates(),
    decreases m.len(),
{
    reveal(Seq::filter);
    if m.len() > 0 {
        let init = m.drop_last();
        let last = m.last();
        assert(m =~= init.push(last));
        lemma_filter_push(init, last, keep);
        lemma_filter_once(init, keep);
        if keep(last) {
            let f = init.filter(keep);
            lemma_filter_contains(init, keep, last);
            assert(!init.contains(last)) by {
                if init.contains(last) {
                    let k = choose|k: int| 0 <= k < init.len() && init[k] == last;
                    assert(m[k] == m[m.len() - 1]);
                }
            }
            assert(!f.contains(last));
            assert(f.push(last).no_duplicates());
        }
    }
}

proof fn lemma_group_after_add(
    s: RelationshipsView,
    id: u64,
    rel: RelationshipView,
    g: Seq<char>,
    x: u64,
)
    requires
        groups_exact(s),
    ensures
        group_members(with_relationship(s, id, rel).groups, g).no_duplicates(),
        group_members(with_relationship(s, id, rel).groups, g).contains(x) <==> if x == id {
            rel.group_id == Some(g)
        } else {
            s.forward.contains_key(x) && s.forward[x].group_id == Some(g)
        },
{
    let m = group_members(s.groups, g);
    let n = group_members(groups_without(s, id), g);
    let after = group_members(with_relationship(s, id, rel).groups, g);
    assert(m.no_duplicates());
    assert(m.contains(x) <==> s.forward.contains_key(x) && s.forward[x].group_id == Some(g));
    assert(m.contains(id) <==> s.forward.contains_key(id) && s.forward[id].group_id == Some(g));
    if former_group(s, id) == Some(g) && s.groups.contains_key(g) {
        lemma_filter_once(m, other_than(id));
        lemma_filter_contains(m, other_than(id), x);
        lemma_filter_contains(m, other_than(id), id);
    } else {
        assert(n =~= m);
    }
    assert(!n.contains(id));
    if rel.group_id == Some(g) {
        assert(after =~= n.push(id));
        if n.contains(x) {
            let k = choose|k: int| 0 <= k < n.len() && n[k] == x;
            assert(after[k] == x);
        }
        assert(after[n.len() as int] == id);
    } else {
        assert(after =~= n);
    }
}

proof fn lemma_add_keeps_groups(s: RelationshipsView, id: u64, rel: RelationshipView)
    requires
        groups_exact(s),
    ensures
        groups_exact(with_relationship(s, id, rel)),
{
    let t = with_relationship(s, id, rel);
    assert forall|g: Seq<char>, x: u64|
        #![trigger group_members(t.groups, g).contains(x)]
        group_members(t.groups, g).contains(x) <==> t.forward.contains_key(x)
            && t.forward[x].group_id == Some(g) by {
        lemma_group_after_add(s, id, rel, g, x);
    }
    assert forall|g: Seq<char>| (#[trigger] group_members(t.groups, g)).no_duplicates() by {
        lemma_group_after_add(s, id, rel, g, id);
    }
}

// ── File format ─────────────────────────────────────────────────────────

/// The low 32 bits of a count.
fn count_field(n: usize) -> (r: u32)
    ensures
        r == (n as nat % 0x1_0000_0000) as u32,
{
    (n as u64 % 0x1_0000_0000) as u32
}

/// The low 16 bits of a length.
fn group_field(n: usize) -> (r: u16)
    ensures
        r == (n as nat % 0x1_0000) as u16,
{
    (n as u64 % 0x1_0000) as u16
}

/// What `String::from_utf8_lossy` makes of bytes that are not valid UTF-8.
pub uninterp spec fn repaired_text(bytes: Seq<u8>) -> Seq<char>;

/// The text of bytes that are meant to be UTF-8.
pub open spec fn lossy_text(bytes: Seq<u8>) -> Seq<char> {
    if valid_utf8(bytes) {
        decode_utf8(bytes)
    } else {
        repaired_text(bytes)
    }
}

/// `String::from_utf8_lossy`: for valid UTF-8 the text that the bytes encode,
/// else a text that is a function of the bytes.
#[verifier::external_body]
fn lossy_string(bytes: &[u8]) -> (r: String)
    ensures
        r@ == (if valid_utf8(bytes@) {
            decode_utf8(bytes@)
        } else {
            repaired_text(bytes@)
        }),
{
    String::from_utf8_lossy(bytes).into_owned()
}

/// The record of one chunk: id, whether it has a parent, the parent or 0, the
/// low 16 bits of the length of the group's name, and the name.
pub open spec fn record(e: (u64, RelationshipView)) -> Seq<u8> {
    let parent: u64 = match e.1.parent_id {
        Some(p) => p,
        None => 0,
    };
    let has_parent: u8 = if e.1.parent_id is Some {
        1
    } else {
        0
    };
    let name = match e.1.group_id {
        Some(g) => encode_utf8(g),
        None => Seq::<u8>::empty(),
    };
    le64(e.0) + seq![has_parent] + le64(parent) + le16((name.len() % 0x1_0000) as u16) + name
}

/// The records of a list of chunks.
pub open spec fn records(entries: Seq<(u64, RelationshipView)>) -> Seq<u8>
    decreases entries.len(),
{
    if entries.len() == 0 {
        Seq::empty()
    } else {
        records(entries.drop_last()) + record(entries.last())
    }
}

/// The relationship file for a list of chunks.
pub open spec fn saved_bytes(entries: Seq<(u64, RelationshipView)>) -> Seq<u8> {
    le32((entries.len() % 0x1_0000_0000) as u32) + records(entries)
}

/// The length of the group's name that the record at `pos` announces.
pub open spec fn name_len_at(b: Seq<u8>, pos: int) -> int {
    u16_at(b, pos + 17) as int
}

/// The record at `pos` has a group's name, and the file holds all of it.
pub open spec fn has_name_at(b: Seq<u8>, pos: int) -> bool {
    0 < name_len_at(b, pos) <= b.len() - (pos + 19)
}

/// The relationship that the record at `pos` gives.
pub open spec fn relationship_at(b: Seq<u8>, pos: int) -> RelationshipView {
    RelationshipView {
        parent_id: if b[pos + 8] == 1 {
            Some(u64_at(b, pos + 9))
        } else {
            None
        },
        group_id: if has_name_at(b, pos) {
            Some(lossy_text(b.subrange(pos + 19, pos + 19 + name_len_at(b, pos))))
        } else {
            None
        },
    }
}

/// A store with up to `count` records added, read from `pos` on for as long as
/// the file lasts.
pub open spec fn read_records(s: RelationshipsView, b: Seq<u8>, pos: int, count: nat) -> RelationshipsView
    decreases count,
{
    if count == 0 || b.len() - pos < 19 {
        s
    } else {
        read_records(
            with_relationship(s, u64_at(b, pos), relationship_at(b, pos)),
            b,
            pos + 19 + if has_name_at(b, pos) {
                name_len_at(b, pos)
            } else {
                0
            },
            (count - 1) as nat,
        )
    }
}

/// The store that a relationship file gives.
pub open spec fn loaded(b: Seq<u8>) -> RelationshipsView {
    if b.len() < 4 {
        no_relationships()
    } else {
        read_records(no_relationships(), b, 4, u32_at(b, 0) as nat)
    }
}

// ── Laws ────────────────────────────────────────────────────────────────

/// A relationship that the file format can hold: its group's name, when there
/// is one, has 1 to 65,535 bytes.
pub open spec fn storable(rel: RelationshipView) -> bool {
    rel.group_id matches Some(g) ==> 0 < encode_utf8(g).len() < 0x1_0000
}

/// The store after a list of relationships was added to an empty one.
pub open spec fn added(entries: Seq<(u64, RelationshipView)>) -> RelationshipsView
    decreases entries.len(),
{
    if entries.len() == 0 {
        no_relationships()
    } else {
        with_relationship(added(entries.drop_last()), entries.last().0, entries.last().1)
    }
}

proof fn lemma_added_forward(entries: Seq<(u64, RelationshipView)>)
    requires
        distinct_keys(entries),
    ensures
        added(entries).forward == pairs_map(entries),
    decreases entries.len(),
{
    if entries.len() == 0 {
        assert(pairs_map(entries) =~= Map::empty());
    } else {
        let init = entries.drop_last();
        let last = entries.last();
        assert(distinct_keys(init)) by {
            assert forall|i: int, j: int| 0 <= i < j < init.len() implies (#[trigger] init[i]).0 != (
            #[trigger] init[j]).0 by {
                assert(entries[i].0 != entries[j].0);
            }
        }
        lemma_added_forward(init);
        assert(!has_key(init, last.0)) by {
            if has_key(init, last.0) {
                let i = choose|i: int| 0 <= i < init.len() && (#[trigger] init[i]).0 == last.0;
                assert(entries[i].0 != entries[entries.len() - 1].0);
            }
        }
        lemma_pairs_insert(init, init.len() as int, last.0, last.1);
        assert(init.insert(init.len() as int, last) =~= entries);
    }
}

proof fn lemma_records_prefix(entries: Seq<(u64, RelationshipView)>, k: int)
    requires
        0 <= k <= entries.len(),
    ensures
        records(entries.subrange(0, k)).len() <= records(entries).len(),
        records(entries).subrange(0, records(entries.subrange(0, k)).len() as int) == records(
            entries.subrange(0, k),
        ),
    decreases entries.len(),
{
    if k == entries.len() {
        assert(entries.subrange(0, k) =~= entries);
        assert(records(entries).subrange(0, records(entries).len() as int) =~= records(entries));
    } else {
        let init = entries.drop_last();
        lemma_records_prefix(init, k);
        assert(init.subrange(0, k) =~= entries.subrange(0, k));
        let n = records(entries.subrange(0, k)).len() as int;
        assert(records(entries).subrange(0, n) =~= records(init).subrange(0, n));
    }
}

proof fn lemma_record_reads_back(b: Seq<u8>, pos: int, e: (u64, RelationshipView))
    requires
        0 <= pos,
        pos + record(e).len() <= b.len(),
        b.subrange(pos, pos + record(e).len()) == record(e),
        storable(e.1),
    ensures
        b.len() - pos >= 19,
        u64_at(b, pos) == e.0,
        relationship_at(b, pos) == e.1,
        record(e).len() == 19 + if has_name_at(b, pos) {
            name_len_at(b, pos)
        } else {
            0
        },
{
    broadcast use {lemma_le16, lemma_le64};

    let parent: u64 = match e.1.parent_id {
        Some(p) => p,
        None => 0,
    };
    let name = match e.1.group_id {
        Some(g) => encode_utf8(g),
        None => Seq::<u8>::empty(),
    };
    let r = record(e);
    let size = (name.len() % 0x1_0000) as u16;
    assert(size as int == name.len());
    assert(r.len() == 19 + name.len());
    assert(b.subrange(pos, pos + 8) =~= r.subrange(0, 8));
    assert(r.subrange(0, 8) =~= le64(e.0));
    assert(b[pos + 8] == r[8]);
    assert(b.subrange(pos + 9, pos + 17) =~= r.subrange(9, 17));
    assert(r.subrange(9, 17) =~= le64(parent));
    assert(b.subrange(pos + 17, pos + 19) =~= r.subrange(17, 19));
    assert(r.subrange(17, 19) =~= le16(size));
    assert(b.subrange(pos + 19, pos + 19 + name.len()) =~= r.subrange(19, 19 + name.len() as int));
    assert(r.subrange(19, 19 + name.len() as int) =~= name);
    if let Some(g) = e.1.group_id {
        encode_utf8_valid_utf8(g);
        encode_utf8_decode_utf8(g);
    }
}

proof fn lemma_load_from(entries: Seq<(u64, RelationshipView)>, b: Seq<u8>, k: int)
    requires
        b == saved_bytes(entries),
        entries.len() < 0x1_0000_0000,
        forall|i: int| 0 <= i < entries.len() ==> storable((#[trigger] entries[i]).1),
        0 <= k <= entries.len(),
    ensures
        read_records(
            added(entries.subrange(0, k)),
            b,
            4 + records(entries.subrange(0, k)).len() as int,
            (entries.len() - k) as nat,
        ) == added(entries),
    decreases entries.len() - k,
{
    broadcast use lemma_le32;

    if k == entries.len() {
        assert(entries.subrange(0, k) =~= entries);
    } else {
        let e = entries[k];
        let shorter = entries.subrange(0, k);
        let longer = entries.subrange(0, k + 1);
        assert(longer.drop_last() =~= shorter);
        assert(longer.last() == e);
        let pos = 4 + records(shorter).len() as int;
        lemma_records_prefix(entries, k + 1);
        lemma_records_prefix(entries, k);
        let n = record(e).len() as int;
        assert(records(longer).subrange(records(shorter).len() as int, records(longer).len() as int)
            =~= record(e));
        assert(b.subrange(pos, pos + n) =~= records(entries).subrange(pos - 4, pos - 4 + n));
        assert(records(entries).subrange(pos - 4, pos - 4 + n) =~= records(longer).subrange(
            pos - 4,
            pos - 4 + n,
        )) by {
            let whole = records(entries).subrange(0, records(longer).len() as int);
            assert(whole == records(longer));
            assert(whole.subrange(pos - 4, pos - 4 + n) =~= records(entries).subrange(
                pos - 4,
                pos - 4 + n,
            ));
        }
        lemma_record_reads_back(b, pos, e);
        lemma_load_from(entries, b, k + 1);
    }
}

/// What is saved is read back: every chunk has the parent and the group that it
/// had, and the groups list their chunks. The format cannot tell an empty group
/// name from none, nor hold a name of 65,536 bytes or more, nor count more than
/// 32 bits worth of chunks.
pub proof fn law_load_gives_back_what_was_saved(entries: Seq<(u64, RelationshipView)>)
    requires
        distinct_keys(entries),
        entries.len() < 0x1_0000_0000,
        forall|i: int| 0 <= i < entries.len() ==> storable((#[trigger] entries[i]).1),
    ensures
        loaded(saved_bytes(entries)).forward == pairs_map(entries),
        loaded(saved_bytes(entries)) == added(entries),
{
    broadcast use lemma_le32;

    let b = saved_bytes(entries);
    let count = (entries.len() % 0x1_0000_0000) as u32;
    assert(b.subrange(0, 4) =~= le32(count));
    assert(entries.subrange(0, 0) =~= Seq::empty());
    lemma_load_from(entries, b, 0);
    lemma_added_forward(entries);
}

/// The siblings of a chunk are exactly the other chunks that name its group, each
/// once; so siblings are mutual.
pub proof fn law_siblings_share_the_group(s: RelationshipsView, a: u64, b: u64)
    requires
        groups_exact(s),
        s.forward.contains_key(a),
    ensures
        siblings_in(s, a).contains(b) <==> a != b && s.forward.contains_key(b)
            && s.forward[a].group_id is Some && s.forward[a].group_id == s.forward[b].group_id,
        siblings_in(s, a).no_duplicates(),
        s.forward.contains_key(b) ==> (siblings_in(s, a).contains(b) <==> siblings_in(
            s,
            b,
        ).contains(a)),
{
    if let Some(g) = s.forward[a].group_id {
        let m = group_members(s.groups, g);
        lemma_filter_contains(m, other_than(a), b);
        lemma_filter_once(m, other_than(a));
    }
    if s.forward.contains_key(b) {
        if let Some(g) = s.forward[b].group_id {
            let m = group_members(s.groups, g);
            lemma_filter_contains(m, other_than(b), a);
        }
    }
}

/// A relationship that is added is the one found: the chunk has its parent and belongs to
/// its group and no other, and no other chunk's parent or group changes.
pub proof fn law_added_relationship_is_found(
    s: RelationshipsView,
    id: u64,
    rel: RelationshipView,
    other: u64,
    g: Seq<char>,
)
    requires
        groups_exact(s),
    ensures
        ({
            let t = with_relationship(s, id, rel);
            &&& parent_in(t, id) == rel.parent_id
            &&& group_members(t.groups, g).contains(id) <==> rel.group_id == Some(g)
            &&& other != id ==> parent_in(t, other) == parent_in(s, other)
            &&& other != id ==> (group_members(t.groups, g).contains(other) <==> group_members(
                s.groups,
                g,
            ).contains(other))
        }),
{
    lemma_group_after_add(s, id, rel, g, id);
    lemma_group_after_add(s, id, rel, g, other);
    lemma_add_keeps_groups(s, id, rel);
    let t = with_relationship(s, id, rel);
    assert(t.forward.contains_key(id) && t.forward[id] == rel);
    assert(group_members(t.groups, g).contains(id) <==> t.forward.contains_key(id)
        && t.forward[id].group_id == Some(g));
    assert(group_members(t.groups, g).contains(other) <==> t.forward.contains_key(other)
        && t.forward[other].group_id == Some(g));
    assert(group_members(s.groups, g).contains(other) <==> s.forward.contains_key(other)
        && s.forward[other].group_id == Some(g));
}

/// Nothing added, nothing found.
pub proof fn law_no_relationships_no_parents(id: u64)
    ensures
        parent_in(no_relationships(), id) is None,
        siblings_in(no_relationships(), id).len() == 0,
        groups_exact(no_relationships()),
{
    assert forall|g: Seq<char>| (#[trigger] group_members(
        no_relationships().groups,
        g,
    )).len() == 0 by {}
}

/// A parent that the batch itself brings, named by its client id, goes before one given by
/// number; where no such chunk is in the batch, the number stands.
pub proof fn law_a_named_parent_goes_first(
    clients: Map<Seq<char>, u64>,
    pid: Option<u64>,
    name: Seq<char>,
)
    ensures
        clients.contains_key(name) ==> resolved_parent(clients, pid, Some(name)) == Some(
            clients[name],
        ),
        !clients.contains_key(name) ==> resolved_parent(clients, pid, Some(name)) == pid,
        resolved_parent(clients, pid, None) == pid,
{
}

/// A saved relationship is the chunk's id in 8 bytes, 1 or 0 for a parent or none, the
/// parent in 8 bytes, the length of the group's name in 2, and the name; numbers are
/// little-endian. What is saved begins with the number of relationships in 4 bytes.
pub proof fn law_saved_layout(e: (u64, RelationshipView), entries: Seq<(u64, RelationshipView)>)
    ensures
        record(e).subrange(0, 8) == le64(e.0),
        record(e)[8] == if e.1.parent_id is Some {
            1u8
        } else {
            0u8
        },
        e.1.parent_id matches Some(p) ==> record(e).subrange(9, 17) == le64(p),
        e.1.group_id matches Some(g) ==> record(e).subrange(19, record(e).len() as int)
            == encode_utf8(g),
        e.1.group_id matches Some(g) ==> (encode_utf8(g).len() < 0x1_0000 ==> record(e).subrange(
            17,
            19,
        ) == le16(encode_utf8(g).len() as u16)),
        e.1.group_id is None ==> record(e).len() == 19 && record(e).subrange(17, 19) == le16(0),
        saved_bytes(entries).subrange(0, 4) == le32((entries.len() % 0x1_0000_0000) as u32),
        saved_bytes(entries).subrange(4, saved_bytes(entries).len() as int) == records(entries),
        records(entries.push(e)) == records(entries) + record(e),
{
    lemma_le64(e.0);
    let parent: u64 = match e.1.parent_id {
        Some(p) => p,
        None => 0,
    };
    let name = match e.1.group_id {
        Some(g) => encode_utf8(g),
        None => Seq::<u8>::empty(),
    };
    let n = (name.len() % 0x1_0000) as u16;
    lemma_le64(parent);
    lemma_le32((entries.len() % 0x1_0000_0000) as u32);
    lemma_le16(n);
    assert(record(e).subrange(0, 8) =~= le64(e.0));
    assert(record(e).subrange(9, 17) =~= le64(parent));
    assert(record(e).subrange(17, 19) =~= le16(n));
    assert(record(e).subrange(19, record(e).len() as int) =~= name);
    assert(saved_bytes(entries).subrange(0, 4) =~= le32((entries.len() % 0x1_0000_0000) as u32));
    assert(saved_bytes(entries).subrange(4, saved_bytes(entries).len() as int) =~= records(entries));
    assert(entries.push(e).drop_last() =~= entries);
}

} // verus!
