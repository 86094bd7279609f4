//! How the vectors of a batch get into the index of their space.
//!
//! Vectors are appended to a memory-mapped file, with a key map from positions
//! to chunk ids; the graph index over them stays in memory and its file is
//! rewritten once in a while only.
use crate::string_map::StringMap;
use crate::vectors::SpaceRows;
use vstd::prelude::*;
use vstd::string::*;

verus! {

/// Spaces with fewer vectors have no graph index.
pub const INDEX_MIN_VECTORS: usize = 1000;

/// The index file is rewritten after this many batches.
pub const HNSW_SAVE_EVERY: u32 = 16;

/// The count of batches that means that there is no index in memory to add to.
pub const NO_MUTABLE_INDEX: u32 = u32::MAX;

/// What a node has of a vector space.
#[derive(Debug)]
pub struct SpaceState {
    /// The chunk of each vector, by position.
    pub key_map: Vec<u64>,
    /// The vectors are in a memory-mapped file that can be appended to.
    pub mapped: bool,
    /// A query in progress holds on to the space.
    pub in_use: bool,
    /// The graph index is in memory.
    pub indexed: bool,
}

/// What becomes of the graph index.
#[derive(Debug, Clone, Copy, PartialEq, Eq, Structural)]
pub struct IndexStep {
    /// The index must be made, or read from its file, before vectors are added.
    pub load: bool,
    /// The index file is written after the vectors are added.
    pub save: bool,
    /// The batches added since the index file was written.
    pub unsaved: u32,
}

/// How the vectors of a batch get into a space.
#[derive(Debug)]
pub enum VectorPlan {
    /// Append the vectors; they get positions from `base_key` on.
    Append { base_key: usize, key_map: Vec<u64>, index: Option<IndexStep> },
    /// Make the space anew from the first `keep` vectors that it has and the
    /// new ones.
    Rebuild { keep: usize, key_map: Vec<u64> },
}

/// What a plan says.
#[verifier::ext_equal]
pub enum PlanView {
    Append { base_key: int, key_map: Seq<u64>, index: Option<IndexStep> },
    Rebuild { keep: int, key_map: Seq<u64> },
}

impl View for VectorPlan {
    type V = PlanView;

    open spec fn view(&self) -> PlanView {
        match self {
            VectorPlan::Append { base_key, key_map, index } => PlanView::Append {
                base_key: *base_key as int,
                key_map: key_map@,
                index: *index,
            },
            VectorPlan::Rebuild { keep, key_map } => PlanView::Rebuild {
                keep: *keep as int,
                key_map: key_map@,
            },
        }
    }
}

/// The chunks of a list of vectors.
pub open spec fn row_ids(rows: Seq<(u64, Seq<u32>)>) -> Seq<u64> {
    Seq::new(rows.len(), |i: int| rows[i].0)
}

/// What becomes of the graph index of a space that will have `total` vectors;
/// `prev` is the count of batches kept for the space.
pub open spec fn index_step(prev: Option<u32>, indexed: bool, total: int) -> Option<IndexStep> {
    if total < INDEX_MIN_VECTORS {
        None
    } else {
        let mutable = prev is Some && prev->0 != NO_MUTABLE_INDEX;
        let load = !(mutable && indexed);
        let count: int = if mutable {
            prev->0 + 1
        } else {
            1
        };
        let save = load || count >= HNSW_SAVE_EVERY;
        Some(
            IndexStep {
                load,
                save,
                unsaved: if save {
                    0u32
                } else {
                    count as u32
                },
            },
        )
    }
}

/// How the vectors of a batch get into a space. A mapped space is appended to,
/// unless a query holds on to it. Then it is made anew from what it has and the
/// new vectors, and so is any space that is not mapped.
pub open spec fn planned(
    existing: Option<SpaceState>,
    new_ids: Seq<u64>,
    prev: Option<u32>,
) -> PlanView {
    match existing {
        None => PlanView::Rebuild { keep: 0, key_map: new_ids },
        Some(s) => if s.mapped && !s.in_use {
            PlanView::Append {
                base_key: s.key_map@.len() as int,
                key_map: s.key_map@ + new_ids,
                index: index_step(prev, s.indexed, s.key_map@.len() + new_ids.len() as int),
            }
        } else {
            PlanView::Rebuild { keep: s.key_map@.len() as int, key_map: s.key_map@ + new_ids }
        },
    }
}

fn append_ids(keys: &mut Vec<u64>, rows: &SpaceRows)
    ensures
        final(keys)@ == old(keys)@ + row_ids(rows@),
{
    let ghost start = keys@;
    let ghost ids = row_ids(rows@);
    let mut i: usize = 0;
    proof {
        assert(start + ids.subrange(0, 0) =~= start);
    }
    while i < rows.rows.len()
        invariant
            i <= rows.rows@.len(),
            ids == row_ids(rows@),
            keys@ == start + ids.subrange(0, i as int),
        decreases rows.rows.len() - i,
    {
        keys.push(rows.rows[i].0);
        proof {
            assert(keys@ =~= start + ids.subrange(0, i + 1));
        }
        i = i + 1;
    }
    proof {
        assert(ids.subrange(0, ids.len() as int) =~= ids);
    }
}

fn next_index_step(prev: Option<u32>, indexed: bool, total: usize) -> (r: Option<IndexStep>)
    ensures
        r == index_step(prev, indexed, total as int),
{
    if total < INDEX_MIN_VECTORS {
        return None;
    }
    let before: u32 = match prev {
        Some(p) => p,
        None => NO_MUTABLE_INDEX,
    };
    let mutable = before != NO_MUTABLE_INDEX;
    let load = !(mutable && indexed);
    let count: u32 = if mutable {
        before + 1
    } else {
        1
    };
    let save = load || count >= HNSW_SAVE_EVERY;
    let unsaved: u32 = if save {
        0
    } else {
        count
    };
    Some(IndexStep { load, save, unsaved })
}

/// How the vectors of a batch get into a space. `prev` is the count of batches
/// kept for the space.
pub fn plan_vectors(existing: Option<SpaceState>, rows: &SpaceRows, prev: Option<u32>) -> (r:
    VectorPlan)
    requires
        existing matches Some(s) ==> s.key_map@.len() + rows@.len() <= usize::MAX,
    ensures
        r@ == planned(existing, row_ids(rows@), prev),
{
    match existing {
        None => {
            let mut key_map: Vec<u64> = Vec::new();
            append_ids(&mut key_map, rows);
            proof {
                assert(key_map@ =~= row_ids(rows@));
            }
            VectorPlan::Rebuild { keep: 0, key_map }
        },
        Some(s) => {
            let base_key: usize = s.key_map.len();
            let grows = s.mapped && !s.in_use;
            let indexed = s.indexed;
            let mut key_map = s.key_map;
            append_ids(&mut key_map, rows);
            if grows {
                let index = next_index_step(prev, indexed, key_map.len());
                VectorPlan::Append { base_key, key_map, index }
            } else {
                VectorPlan::Rebuild { keep: base_key, key_map }
            }
        },
    }
}

/// Keeps count of the batches that the index file does not have yet.
pub fn keep_count(unsaved: &mut StringMap<u32>, space: &str, index: &Option<IndexStep>)
    ensures
        final(unsaved)@ == (match *index {
            Some(s) => old(unsaved)@.insert(space@, s.unsaved),
            None => old(unsaved)@,
        }),
{
    if let Some(s) = index {
        unsaved.insert(crate::text::own(space), s.unsaved);
    }
}

/// The position is in the range.
pub open spec fn within(range: (usize, usize), k: int) -> bool {
    range.0 <= k < range.1
}

/// The positions that an index read from its file lacks: those between its size
/// and the first new one, as far as the mapped file has them.
pub fn missing_positions(index_size: usize, base_key: usize, mapped: Option<usize>) -> (r: (
    usize,
    usize,
))
    ensures
        forall|k: int| #[trigger]
            within(r, k) <==> mapped is Some && index_size <= k < base_key && k < mapped->0,
{
    match mapped {
        Some(len) => {
            if index_size < base_key {
                let end: usize = if len < base_key {
                    len
                } else {
                    base_key
                };
                if index_size < end {
                    (index_size, end)
                } else {
                    (end, end)
                }
            } else {
                (base_key, base_key)
            }
        },
        None => (base_key, base_key),
    }
}

// ── Laws ────────────────────────────────────────────────────────────────

/// The index file never falls more than 15 batches behind, and an index that
/// was just made or read is always written.
pub proof fn law_index_file_keeps_up(prev: Option<u32>, indexed: bool, total: int)
    ensures
        index_step(prev, indexed, total) matches Some(s) ==> s.unsaved < HNSW_SAVE_EVERY && (s.load
            ==> s.save) && (s.save <==> s.unsaved == 0),
{
}

/// The chunks of the vectors that a plan leaves in the space, by position.
pub open spec fn plan_keys(p: PlanView) -> Seq<u64> {
    match p {
        PlanView::Append { base_key, key_map, index } => key_map,
        PlanView::Rebuild { keep, key_map } => key_map,
    }
}

/// The number of vectors that a plan keeps of those in the space.
pub open spec fn plan_kept(p: PlanView) -> int {
    match p {
        PlanView::Append { base_key, key_map, index } => base_key,
        PlanView::Rebuild { keep, key_map } => keep,
    }
}

/// Adding vectors loses none of those that are there, whether or not a query holds
/// on to the space: each keeps its position, and the new ones come after them.
pub proof fn law_vectors_are_appended(s: SpaceState, new_ids: Seq<u64>, prev: Option<u32>)
    ensures
        plan_kept(planned(Some(s), new_ids, prev)) == s.key_map@.len(),
        plan_keys(planned(Some(s), new_ids, prev)) == s.key_map@ + new_ids,
{
}

/// Vectors are appended where the space is in a file that no query holds on to, and the
/// space is made anew otherwise; a space that is not there yet holds the new ones alone.
pub proof fn law_when_vectors_are_appended(s: SpaceState, new_ids: Seq<u64>, prev: Option<u32>)
    ensures
        s.mapped && !s.in_use ==> planned(Some(s), new_ids, prev) is Append,
        !s.mapped || s.in_use ==> planned(Some(s), new_ids, prev) is Rebuild,
        plan_keys(planned(None, new_ids, prev)) == new_ids,
        plan_kept(planned(None, new_ids, prev)) == 0,
        planned(Some(s), new_ids, prev) matches PlanView::Append { base_key, key_map, index } ==> (
        index is Some <==> s.key_map@.len() + new_ids.len() >= 1000),
{
}

/// There is a graph index from 1000 vectors on. One that is in memory and can be added to
/// is not read again, and is written with the 16th batch since it was written last.
pub proof fn law_index_steps(count: u32, indexed: bool, total: int)
    requires
        count < u32::MAX - 1,
    ensures
        index_step(Some(count), indexed, total) is Some <==> total >= 1000,
        total >= 1000 ==> index_step(Some(count), true, total)->0.load == false,
        total >= 1000 ==> (index_step(Some(count), true, total)->0.save <==> count >= 15),
        total >= 1000 && count < 15 ==> index_step(Some(count), true, total)->0.unsaved == count
            + 1,
        total >= 1000 ==> index_step(Some(count), false, total)->0.load,
        total >= 1000 ==> index_step(None, indexed, total)->0.load,
        total >= 1000 ==> index_step(Some(u32::MAX), indexed, total)->0.load,
{
}

/// The ids of rows are those of each row, in order.
pub proof fn law_row_ids(rows: Seq<(u64, Seq<u32>)>, i: int)
    requires
        0 <= i < rows.len(),
    ensures
        row_ids(rows).len() == rows.len() && row_ids(rows)[i] == rows[i].0,
{
}

} // verus!
