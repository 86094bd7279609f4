//! Chunk ids: pools of leased ids, and where counting goes on.
//!
//! No id is ever handed out twice. Gaps are fine.
use std::collections::VecDeque;
use vstd::prelude::*;

verus! {

/// Ids from `start` up to but not including `end`.
#[derive(Debug, Clone, Copy, PartialEq, Eq, Structural)]
pub struct IdRange {
    pub start: u64,
    pub end: u64,
}

/// The ids of a range, in increasing order.
pub open spec fn range_ids(r: IdRange) -> Seq<u64> {
    if r.start <= r.end {
        Seq::new((r.end - r.start) as nat, |i: int| (r.start + i) as u64)
    } else {
        Seq::empty()
    }
}

/// The ids of a list of ranges, in order.
pub open spec fn all_ids(ranges: Seq<IdRange>) -> Seq<u64>
    decreases ranges.len(),
{
    if ranges.len() == 0 {
        Seq::empty()
    } else {
        range_ids(ranges[0]) + all_ids(ranges.drop_first())
    }
}

/// Leased ids, handed out in order.
#[derive(Debug, Clone)]
pub struct IdPool {
    ranges: VecDeque<IdRange>,
}

impl View for IdPool {
    type V = Seq<u64>;

    /// The ids still to be handed out.
    closed spec fn view(&self) -> Seq<u64> {
        all_ids(self.ranges@)
    }
}

proof fn lemma_all_ids_push(ranges: Seq<IdRange>, r: IdRange)
    ensures
        all_ids(ranges.push(r)) == all_ids(ranges) + range_ids(r),
    decreases ranges.len(),
{
    if ranges.len() == 0 {
        reveal_with_fuel(all_ids, 2);
        assert(ranges.push(r).drop_first() =~= ranges);
        assert(all_ids(ranges.push(r)) =~= range_ids(r) + Seq::empty());
        assert(all_ids(ranges) + range_ids(r) =~= range_ids(r) + Seq::empty());
    } else {
        assert(ranges.push(r).drop_first() =~= ranges.drop_first().push(r));
        assert(ranges.push(r)[0] == ranges[0]);
        lemma_all_ids_push(ranges.drop_first(), r);
        assert(all_ids(ranges.push(r)) =~= all_ids(ranges) + range_ids(r));
    }
}

impl IdPool {
    /// An empty pool.
    pub fn new() -> (r: IdPool)
        ensures
            r@ == Seq::<u64>::empty(),
    {
        IdPool { ranges: VecDeque::new() }
    }

    /// Adds a leased range, to be handed out after everything else.
    pub fn push(&mut self, range: IdRange)
        ensures
            final(self)@ == old(self)@ + range_ids(range),
    {
        proof {
            lemma_all_ids_push(self.ranges@, range);
        }
        self.ranges.push_back(range);
    }

    /// Hands out the next id.
    fn next(&mut self) -> (r: Option<u64>)
        ensures
            r is Some <==> old(self)@.len() > 0,
            r matches Some(id) ==> id == old(self)@[0] && final(self)@ == old(self)@.drop_first(),
            r is None ==> final(self)@ == old(self)@,
    {
        let ghost before = self@;
        loop
            invariant
                self@ == before,
                before == old(self)@,
            decreases self.ranges@.len(),
        {
            let ghost rs = self.ranges@;
            match self.ranges.pop_front() {
                None => {
                    return None;
                },
                Some(r) => {
                    proof {
                        assert(rs.drop_first() =~= self.ranges@);
                    }
                    if r.start < r.end {
                        let rest = IdRange { start: r.start + 1, end: r.end };
                        let ghost tail = self.ranges@;
                        self.ranges.push_front(rest);
                        proof {
                            assert(self.ranges@.drop_first() =~= tail);
                            assert(self.ranges@[0] == rest);
                            assert(range_ids(r) =~= seq![r.start] + range_ids(rest));
                            assert(before =~= seq![r.start] + self@);
                            assert(before.drop_first() =~= self@);
                        }
                        return Some(r.start);
                    }
                    proof {
                        assert(range_ids(r) =~= Seq::empty());
                        assert(before =~= self@);
                    }
                },
            }
        }
    }

    /// Moves ids out of the pool until `ids` has `count` of them or the pool is
    /// empty.
    pub fn drain_into(&mut self, ids: &mut Vec<u64>, count: usize)
        ensures
            final(ids)@ + final(self)@ == old(ids)@ + old(self)@,
            final(ids)@.len() >= old(ids)@.len(),
            final(ids)@.len() >= count || final(self)@.len() == 0,
            final(ids)@.len() == old(ids)@.len() || final(ids)@.len() <= count,
    {
        let ghost total = ids@ + self@;
        while ids.len() < count
            invariant
                ids@ + self@ == total,
                ids@.len() >= old(ids)@.len(),
                ids@.len() == old(ids)@.len() || ids@.len() <= count,
                total == old(ids)@ + old(self)@,
            decreases count - ids.len(),
        {
            let ghost before = self@;
            match self.next() {
                Some(id) => {
                    ids.push(id);
                    proof {
                        assert(before =~= seq![id] + self@);
                        assert(ids@ + self@ =~= total);
                    }
                },
                None => {
                    return;
                },
            }
        }
    }

    /// Hands out `count` ids, the next ones in order, or none when the pool has
    /// fewer: then it must be refilled first.
    pub fn take(&mut self, count: usize) -> (r: Option<Vec<u64>>)
        ensures
            r is Some <==> old(self)@.len() >= count,
            r matches Some(ids) ==> ids@.len() == count && ids@ + final(self)@ == old(self)@,
            r is None ==> final(self)@ == old(self)@,
    {
        let ghost before = self@;
        if !self.holds(count) {
            return None;
        }
        let mut ids: Vec<u64> = Vec::new();
        self.drain_into(&mut ids, count);
        proof {
            assert(Seq::<u64>::empty() + before =~= before);
            if ids@.len() < count {
                assert(ids@ + self@ =~= ids@);
            }
        }
        Some(ids)
    }

    /// Whether the pool has at least `count` ids.
    pub fn holds(&self, count: usize) -> (r: bool)
        ensures
            r == (self@.len() >= count),
    {
        let mut need: u64 = count as u64;
        let mut i: usize = 0;
        let ghost rs = self.ranges@;
        proof {
            assert(rs.subrange(0, rs.len() as int) =~= rs);
        }
        while i < self.ranges.len()
            invariant
                i <= self.ranges@.len(),
                rs == self.ranges@,
                need <= count,
                0 < need || i == 0,
                (self@.len() >= count) == (all_ids(rs.subrange(i as int, rs.len() as int)).len()
                    >= need),
            decreases self.ranges.len() - i,
        {
            let r = self.ranges[i];
            let size: u64 = if r.start < r.end {
                r.end - r.start
            } else {
                0
            };
            proof {
                let rest = rs.subrange(i as int, rs.len() as int);
                assert(rest.drop_first() =~= rs.subrange(i + 1, rs.len() as int));
                assert(rest[0] == r);
                assert(range_ids(r).len() == size);
            }
            if size >= need {
                return true;
            }
            need = need - size;
            i = i + 1;
        }
        proof {
            assert(rs.subrange(i as int, rs.len() as int) =~= Seq::empty());
        }
        need == 0
    }
}

/// Leases a block of ids from an allocator: the block, whose end is where the
/// allocator goes on. Nothing is leased when the ids are used up.
pub fn claim_block(frontier: u64, count: u64) -> (r: Option<IdRange>)
    ensures
        r == (if frontier + count <= u64::MAX {
            Some(IdRange { start: frontier, end: (frontier + count) as u64 })
        } else {
            None
        }),
{
    match frontier.checked_add(count) {
        Some(end) => Some(IdRange { start: frontier, end }),
        None => None,
    }
}

// ── Where counting goes on ──────────────────────────────────────────────

/// One past the highest id ever assigned; 0 when none was.
pub open spec fn next_free_id(max_id: u64, assigned: bool) -> int {
    if assigned {
        max_id + 1
    } else {
        0
    }
}

/// The id at which a collection that was rebuilt from the store goes on.
/// `assigned` tells whether any id was ever assigned.
pub fn next_id_after(max_id: u64, assigned: bool) -> (r: u64)
    requires
        max_id < u64::MAX,
    ensures
        r == next_free_id(max_id, assigned),
{
    if assigned {
        max_id + 1
    } else {
        0
    }
}

/// The largest of the persisted counter, one past the highest id on disk, and
/// the number of live chunks.
pub open spec fn loaded_next_id(persisted: u64, max_seen: Option<u64>, chunk_count: u64) -> int {
    let from_disk = match max_seen {
        Some(m) => m + 1,
        None => 0,
    };
    let a = if persisted < from_disk {
        from_disk
    } else {
        persisted as int
    };
    if a < chunk_count {
        chunk_count as int
    } else {
        a
    }
}

/// The id at which a collection that was loaded from disk goes on. `max_seen`
/// is the highest id on disk, deleted chunks included.
pub fn next_id_on_load(persisted: u64, max_seen: Option<u64>, chunk_count: u64) -> (r: u64)
    requires
        max_seen matches Some(m) ==> m < u64::MAX,
    ensures
        r == loaded_next_id(persisted, max_seen, chunk_count),
{
    let from_disk: u64 = match max_seen {
        Some(m) => m + 1,
        None => 0,
    };
    let a: u64 = if persisted < from_disk {
        from_disk
    } else {
        persisted
    };
    if a < chunk_count {
        chunk_count
    } else {
        a
    }
}

/// The highest of the ids seen on disk.
pub fn highest_id(ids: &Vec<u64>) -> (r: Option<u64>)
    ensures
        r is None <==> ids@.len() == 0,
        r matches Some(m) ==> ids@.contains(m) && forall|i: int|
            0 <= i < ids@.len() ==> #[trigger] ids@[i] <= m,
{
    if ids.len() == 0 {
        return None;
    }
    let mut max: u64 = ids[0];
    let mut i: usize = 1;
    while i < ids.len()
        invariant
            1 <= i <= ids@.len(),
            ids@.contains(max),
            forall|k: int| 0 <= k < i ==> #[trigger] ids@[k] <= max,
        decreases ids.len() - i,
    {
        if ids[i] > max {
            max = ids[i];
        }
        i = i + 1;
    }
    Some(max)
}

/// Assigns `count` ids from a counter.
pub fn assign_from_counter(next_id: &mut u64, count: usize) -> (r: Vec<u64>)
    requires
        *old(next_id) + count <= u64::MAX,
    ensures
        r@ == Seq::new(count as nat, |i: int| (*old(next_id) + i) as u64),
        *final(next_id) == *old(next_id) + count,
{
    let start: u64 = *next_id;
    let mut ids: Vec<u64> = Vec::new();
    let mut i: usize = 0;
    while i < count
        invariant
            start + count <= u64::MAX,
            i <= count,
            *next_id == start + i,
            ids@.len() == i,
            forall|k: int| 0 <= k < i ==> #[trigger] ids@[k] == (start + k) as u64,
        decreases count - i,
    {
        ids.push(*next_id);
        *next_id = *next_id + 1;
        i = i + 1;
    }
    proof {
        assert(ids@ =~= Seq::new(count as nat, |i: int| (start + i) as u64));
    }
    ids
}

/// A counter raised above some ids: the counter, or one past the largest id if that
/// is more.
pub open spec fn raised(next_id: int, ids: Seq<u64>) -> int
    decreases ids.len(),
{
    if ids.len() == 0 {
        next_id
    } else {
        let before = raised(next_id, ids.drop_last());
        if before < ids.last() + 1 {
            ids.last() + 1
        } else {
            before
        }
    }
}

/// A raised counter is above every one of the ids, and no higher than it must be.
pub proof fn lemma_raised(next_id: int, ids: Seq<u64>)
    ensures
        raised(next_id, ids) >= next_id,
        forall|i: int| 0 <= i < ids.len() ==> #[trigger] ids[i] < raised(next_id, ids),
        raised(next_id, ids) == next_id || exists|i: int|
            0 <= i < ids.len() && raised(next_id, ids) == (#[trigger] ids[i]) + 1,
    decreases ids.len(),
{
    if ids.len() > 0 {
        let init = ids.drop_last();
        lemma_raised(next_id, init);
        assert forall|i: int| 0 <= i < ids.len() implies #[trigger] ids[i] < raised(
            next_id,
            ids,
        ) by {
            if i < init.len() {
                assert(init[i] == ids[i]);
            }
        }
        if raised(next_id, ids) == raised(next_id, init) {
            if raised(next_id, init) != next_id {
                let i = choose|i: int|
                    0 <= i < init.len() && raised(next_id, init) == (#[trigger] init[i]) + 1;
                assert(ids[i] == init[i]);
            }
        } else {
            assert(raised(next_id, ids) == ids[ids.len() - 1] + 1);
        }
    }
}

/// Raises a counter above ids that were leased elsewhere.
pub fn raise_counter(next_id: &mut u64, ids: &Vec<u64>)
    requires
        forall|i: int| 0 <= i < ids@.len() ==> #[trigger] ids@[i] < u64::MAX,
    ensures
        *final(next_id) == raised(*old(next_id) as int, ids@),
{
    let ghost start = *next_id;
    let mut i: usize = 0;
    proof {
        assert(ids@.subrange(0, 0) =~= Seq::empty());
    }
    while i < ids.len()
        invariant
            i <= ids@.len(),
            forall|k: int| 0 <= k < ids@.len() ==> #[trigger] ids@[k] < u64::MAX,
            *next_id == raised(start as int, ids@.subrange(0, i as int)),
        decreases ids.len() - i,
    {
        let id: u64 = ids[i];
        proof {
            let longer = ids@.subrange(0, i + 1);
            assert(longer.drop_last() =~= ids@.subrange(0, i as int));
            assert(longer.last() == id);
        }
        if *next_id < id + 1 {
            *next_id = id + 1;
        }
        i = i + 1;
    }
    proof {
        assert(ids@.subrange(0, ids@.len() as int) =~= ids@);
    }
}

/// The counter after the ids of a batch were assigned: counted on, or raised above
/// the ids if they were leased.
pub open spec fn counter_after(lease: Option<Seq<u64>>, next_id: u64, count: nat) -> int {
    match lease {
        Some(ids) => raised(next_id as int, ids),
        None => next_id + count,
    }
}

// ── Laws ────────────────────────────────────────────────────────────────

/// A pool without repeated ids never hands an id out twice: what is taken has no
/// repeats, and nothing of it is left in the pool.
pub proof fn law_ids_are_handed_out_once(before: Seq<u64>, taken: Seq<u64>, left: Seq<u64>)
    requires
        before.no_duplicates(),
        taken + left == before,
    ensures
        taken.no_duplicates(),
        left.no_duplicates(),
        forall|id: u64| !(#[trigger] taken.contains(id) && left.contains(id)),
{
    assert forall|i: int, j: int| 0 <= i < taken.len() && 0 <= j < taken.len() && i != j implies
        taken[i] != taken[j] by {
        assert(before[i] == taken[i] && before[j] == taken[j]);
    }
    assert forall|i: int, j: int| 0 <= i < left.len() && 0 <= j < left.len() && i != j implies
        left[i] != left[j] by {
        assert(before[taken.len() + i] == left[i] && before[taken.len() + j] == left[j]);
    }
    assert forall|id: u64| !(#[trigger] taken.contains(id) && left.contains(id)) by {
        if taken.contains(id) && left.contains(id) {
            let i = choose|i: int| 0 <= i < taken.len() && taken[i] == id;
            let j = choose|j: int| 0 <= j < left.len() && left[j] == id;
            assert(before[i] == id && before[taken.len() + j] == id);
        }
    }
}

/// After a load, every id on disk lies below the next one to be assigned, and
/// the counter never falls behind the persisted one.
pub proof fn law_load_never_reuses(persisted: u64, ids: Seq<u64>, max_seen: u64, chunk_count: u64)
    requires
        ids.contains(max_seen),
        forall|i: int| 0 <= i < ids.len() ==> #[trigger] ids[i] <= max_seen,
    ensures
        forall|i: int|
            0 <= i < ids.len() ==> #[trigger] ids[i] < loaded_next_id(
                persisted,
                Some(max_seen),
                chunk_count,
            ),
        persisted <= loaded_next_id(persisted, Some(max_seen), chunk_count),
{
}

/// A block of ids holds those from its start up to its end, in order, and a list of blocks
/// holds what its blocks hold.
pub proof fn law_blocks_hold_their_ids(r: IdRange, rest: Seq<IdRange>, id: u64, i: int)
    ensures
        range_ids(r).contains(id) <==> r.start <= id < r.end,
        0 <= i < range_ids(r).len() ==> range_ids(r)[i] == r.start + i,
        all_ids(seq![r] + rest) == range_ids(r) + all_ids(rest),
        all_ids(Seq::empty()).len() == 0,
{
    if r.start <= id < r.end {
        assert(range_ids(r)[id - r.start] == id);
    }
    assert((seq![r] + rest).drop_first() =~= rest);
}

/// The next free id is above the highest one that was assigned, and right above it; where
/// none was assigned it is 0.
pub proof fn law_next_free_id(max_id: u64)
    ensures
        next_free_id(max_id, true) == max_id + 1,
        next_free_id(max_id, false) == 0,
{
}

/// After a load the next id is the least one that is not below the persisted counter, the
/// number of chunks, or what comes after the highest id on disk.
pub proof fn law_loaded_counter_is_the_least(
    persisted: u64,
    max_seen: Option<u64>,
    chunk_count: u64,
    n: int,
)
    ensures
        n >= loaded_next_id(persisted, max_seen, chunk_count) <==> n >= persisted && n
            >= chunk_count && (max_seen matches Some(m) ==> n > m),
{
}

/// A counter is raised to the least value that is not below it and above every given id;
/// assigning from the counter moves it by the number of ids.
pub proof fn law_counter_after_a_batch(next_id: u64, ids: Seq<u64>, count: nat, n: int)
    ensures
        n >= counter_after(Some(ids), next_id, count) <==> n >= next_id && forall|i: int|
            0 <= i < ids.len() ==> #[trigger] ids[i] < n,
        counter_after(None, next_id, count) == next_id + count,
{
    lemma_raised(next_id as int, ids);
}

} // verus!
