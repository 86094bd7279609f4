//! Embeddings sorted out by vector space.
use crate::assoc::{distinct_keys, pairs_map};
use crate::duplicate::Duplicate;
use crate::string_map::StringMap;
use vstd::prelude::*;

verus! {

/// The vectors of one space with the ids of their chunks.
#[derive(Debug)]
pub struct SpaceRows {
    pub rows: Vec<(u64, Vec<u32>)>,
}

impl View for SpaceRows {
    type V = Seq<(u64, Seq<u32>)>;

    open spec fn view(&self) -> Seq<(u64, Seq<u32>)> {
        Seq::new(self.rows@.len(), |i: int| (self.rows@[i].0, self.rows@[i].1@))
    }
}

/// The vectors that a list of chunks has in a space, in the order of the list.
pub open spec fn vectors_in(
    items: Seq<(u64, Map<Seq<char>, Seq<u32>>)>,
    space: Seq<char>,
) -> Seq<(u64, Seq<u32>)>
    decreases items.len(),
{
    if items.len() == 0 {
        Seq::empty()
    } else {
        let before = vectors_in(items.drop_last(), space);
        let (id, embeddings) = items.last();
        if embeddings.contains_key(space) {
            before.push((id, embeddings[space]))
        } else {
            before
        }
    }
}

/// One group for each space that some chunk has a vector in.
pub open spec fn by_space(
    items: Seq<(u64, Map<Seq<char>, Seq<u32>>)>,
    groups: Map<Seq<char>, Seq<(u64, Seq<u32>)>>,
) -> bool {
    &&& forall|s: Seq<char>| #[trigger]
        groups.contains_key(s) <==> vectors_in(items, s).len() > 0
    &&& forall|s: Seq<char>| #[trigger] groups.contains_key(s) ==> groups[s] == vectors_in(items, s)
}

/// Adds a chunk's vectors to the groups of their spaces.
pub fn add_vectors(
    groups: &mut StringMap<SpaceRows>,
    id: u64,
    embeddings: &StringMap<Vec<u32>>,
    Ghost(items): Ghost<Seq<(u64, Map<Seq<char>, Seq<u32>>)>>,
)
    requires
        by_space(items, old(groups)@),
    ensures
        by_space(items.push((id, embeddings@)), final(groups)@),
{
    let ghost before = groups@;
    let n: usize = embeddings.len();
    let mut i: usize = 0;
    while i < n
        invariant
            n == embeddings.pairs().len(),
            i <= n,
            embeddings@ == pairs_map(embeddings.pairs()),
            distinct_keys(embeddings.pairs()),
            forall|j: int|
                0 <= j < i ==> groups@.contains_key((#[trigger] embeddings.pairs()[j]).0)
                    && groups@[embeddings.pairs()[j].0] == (if before.contains_key(
                    embeddings.pairs()[j].0,
                ) {
                    before[embeddings.pairs()[j].0]
                } else {
                    Seq::empty()
                }).push((id, embeddings.pairs()[j].1)),
            forall|s: Seq<char>|
                (forall|j: int| 0 <= j < i ==> (#[trigger] embeddings.pairs()[j]).0 != s)
                    ==> #[trigger] groups@.contains_key(s) == before.contains_key(s) && (
                groups@.contains_key(s) ==> groups@[s] == before[s]),
        decreases n - i,
    {
        let space = embeddings.key_at(i).clone();
        let vector = embeddings.value_at(i).duplicate();
        let ghost earlier = groups@;
        proof {
            assert(forall|j: int|
                0 <= j < i ==> (#[trigger] embeddings.pairs()[j]).0 != embeddings.pairs()[i as int].0);
            assert(earlier.contains_key(space@) == before.contains_key(space@));
        }
        let mut rows: SpaceRows = match groups.remove(space.as_str()) {
            Some(r) => r,
            None => SpaceRows { rows: Vec::new() },
        };
        let ghost old_rows = rows@;
        proof {
            assert(old_rows =~= if before.contains_key(space@) {
                before[space@]
            } else {
                Seq::empty()
            });
        }
        rows.rows.push((id, vector));
        proof {
            assert(rows@ =~= old_rows.push((id, vector@)));
        }
        groups.insert(space, rows);
        i = i + 1;
    }
    proof {
        let now = items.push((id, embeddings@));
        assert(now.drop_last() =~= items);
        assert forall|s: Seq<char>| #[trigger]
            groups@.contains_key(s) == (vectors_in(now, s).len() > 0) && (groups@.contains_key(s)
            ==> groups@[s] == vectors_in(now, s)) by {
            assert(before.contains_key(s) == (vectors_in(items, s).len() > 0));
            if !before.contains_key(s) {
                assert(vectors_in(items, s) =~= Seq::empty());
            }
            if embeddings@.contains_key(s) {
                let j = choose|j: int|
                    0 <= j < embeddings.pairs().len() && (#[trigger] embeddings.pairs()[j]).0 == s;
                crate::assoc::lemma_pairs_at(embeddings.pairs(), j);
            } else {
                assert forall|j: int| 0 <= j < n implies (#[trigger] embeddings.pairs()[j]).0 != s by {
                    crate::assoc::lemma_pairs_at(embeddings.pairs(), j);
                }
            }
        }
    }
}

// ── Laws ────────────────────────────────────────────────────────────────

/// The vectors of a space are exactly those that the chunks have in it, each with the id
/// of its chunk.
pub proof fn law_vectors_are_the_chunks_own(
    items: Seq<(u64, Map<Seq<char>, Seq<u32>>)>,
    space: Seq<char>,
    id: u64,
    v: Seq<u32>,
)
    ensures
        vectors_in(items, space).contains((id, v)) <==> exists|i: int|
            0 <= i < items.len() && (#[trigger] items[i]).0 == id && items[i].1.contains_key(space)
                && items[i].1[space] == v,
    decreases items.len(),
{
    if items.len() > 0 {
        let init = items.drop_last();
        let last = items.last();
        law_vectors_are_the_chunks_own(init, space, id, v);
        let before = vectors_in(init, space);
        let now = vectors_in(items, space);
        if before.contains((id, v)) {
            let k = choose|k: int| 0 <= k < before.len() && before[k] == (id, v);
            assert(now[k] == (id, v));
        }
        if last.1.contains_key(space) && last.0 == id && last.1[space] == v {
            assert(now[before.len() as int] == (id, v));
        }
        if now.contains((id, v)) {
            let k = choose|k: int| 0 <= k < now.len() && now[k] == (id, v);
            if k < before.len() {
                assert(before[k] == (id, v));
                let i = choose|i: int|
                    0 <= i < init.len() && (#[trigger] init[i]).0 == id && init[i].1.contains_key(
                        space,
                    ) && init[i].1[space] == v;
                assert(items[i] == init[i]);
            } else {
                assert(items[items.len() - 1] == last);
            }
        }
        if exists|i: int|
            0 <= i < items.len() && (#[trigger] items[i]).0 == id && items[i].1.contains_key(space)
                && items[i].1[space] == v {
            let i = choose|i: int|
                0 <= i < items.len() && (#[trigger] items[i]).0 == id && items[i].1.contains_key(
                    space,
                ) && items[i].1[space] == v;
            if i < init.len() {
                assert(init[i] == items[i]);
            }
        }
    }
}

/// Sorted out by space, a vector of a chunk is in the group of its space, and a group
/// holds nothing else.
pub proof fn law_groups_hold_their_vectors(
    items: Seq<(u64, Map<Seq<char>, Seq<u32>>)>,
    groups: Map<Seq<char>, Seq<(u64, Seq<u32>)>>,
    space: Seq<char>,
    i: int,
    j: int,
)
    requires
        by_space(items, groups),
    ensures
        0 <= i < items.len() && items[i].1.contains_key(space) ==> groups.contains_key(space)
            && groups[space].contains((items[i].0, items[i].1[space])),
        groups.contains_key(space) && 0 <= j < groups[space].len() ==> exists|k: int|
            0 <= k < items.len() && (#[trigger] items[k]).0 == groups[space][j].0
                && items[k].1.contains_key(space) && items[k].1[space] == groups[space][j].1,
        groups.contains_key(space) ==> groups[space].len() > 0,
{
    if 0 <= i < items.len() && items[i].1.contains_key(space) {
        let (id, m) = items[i];
        law_vectors_are_the_chunks_own(items, space, id, m[space]);
        assert(items[i].0 == id && items[i].1[space] == m[space]);
        assert(vectors_in(items, space).contains((id, m[space])));
    }
    if groups.contains_key(space) && 0 <= j < groups[space].len() {
        let (id, v) = groups[space][j];
        law_vectors_are_the_chunks_own(items, space, id, v);
        assert(vectors_in(items, space)[j] == (id, v));
        assert(vectors_in(items, space).contains((id, v)));
    }
}

/// The vectors of a space keep the order of the chunks: one more chunk adds its vector
/// at the end, or nothing.
pub proof fn law_vectors_keep_the_order(
    items: Seq<(u64, Map<Seq<char>, Seq<u32>>)>,
    id: u64,
    embeddings: Map<Seq<char>, Seq<u32>>,
    space: Seq<char>,
)
    ensures
        embeddings.contains_key(space) ==> vectors_in(items.push((id, embeddings)), space)
            == vectors_in(items, space) + seq![(id, embeddings[space])],
        !embeddings.contains_key(space) ==> vectors_in(items.push((id, embeddings)), space)
            == vectors_in(items, space),
{
    assert(items.push((id, embeddings)).drop_last() =~= items);
    if embeddings.contains_key(space) {
        assert(vectors_in(items.push((id, embeddings)), space) =~= vectors_in(items, space) + seq![
            (id, embeddings[space]),
        ]);
    }
}

} // verus!
