//! Edges on disk: a table of rows by relation id, and two indexes from a chunk to
//! the ids of the edges that leave it and that reach it.
//!
//! A row is an edge in its stored form, JSON. The indexes make "the edges of a
//! chunk" a lookup; each edge is one entry in each of them, so that a chunk with
//! very many edges costs no more per edge than any other. Nothing is held in
//! memory.
use crate::assoc::lookup;
use crate::duplicate::text_views;
use crate::errors::{failed, failure, EngineError};
use crate::id_map::IdMap;
use crate::json::{byte_views, edge_from_json, edge_of_json, edge_view, EdgeKey, EdgeView};
use crate::lsm::alphabetical;
use crate::models::{texts_contain, RelationDirection};
use crate::order::{lemma_text_order, text_lt};
use crate::relation_tables::{
    began_read, began_write, begin_read, begin_write, commit, committed, database_failed,
    entries_at, entries_found, entries_in, entries_read, get_row, has_table,
    lists_entries, make_index, make_rows, put_entry, put_row, read_index, read_rows, rows_at,
    rows_found, rows_in, rows_read, same_write, shows_database_error, take_entry, take_row,
    IndexReader, RowReader,
};
use vstd::prelude::*;
use vstd::string::*;

verus! {

/// How often a database file that is locked is tried again.
pub const OPEN_MAX_ATTEMPTS: u32 = 6;

/// The seconds between two attempts.
pub const OPEN_RETRY_BACKOFF_SECS: u64 = 5;

pub const RELATIONS_TABLE: &'static str = "relations";

pub const BY_SOURCE_TABLE: &'static str = "by_source_idx";

pub const BY_TARGET_TABLE: &'static str = "by_target_idx";

/// Whether to try again after an attempt to open the database failed: the file
/// may be locked for a while on a networked file system.
pub fn retries_open(attempt: u32, locked: bool) -> (r: bool)
    ensures
        r == (locked && attempt < OPEN_MAX_ATTEMPTS),
{
    locked && attempt < OPEN_MAX_ATTEMPTS
}

// ── The tables ──────────────────────────────────────────────────────────

/// What the tables hold.
#[verifier::ext_equal]
pub struct TablesView {
    pub rows: Map<Seq<char>, Seq<u8>>,
    /// Each edge's source with its id.
    pub sources: Set<(u64, Seq<char>)>,
    /// Each edge's target with its id.
    pub targets: Set<(u64, Seq<char>)>,
}

/// What the three tables of a write transaction hold, as it stands.
pub open spec fn tables(txn: redb::WriteTransaction) -> TablesView {
    TablesView {
        rows: rows_in(txn, RELATIONS_TABLE@),
        sources: entries_in(txn, BY_SOURCE_TABLE@),
        targets: entries_in(txn, BY_TARGET_TABLE@),
    }
}

/// What the three tables held when a write transaction was begun.
pub open spec fn tables_found(txn: redb::WriteTransaction) -> TablesView {
    TablesView {
        rows: rows_found(txn, RELATIONS_TABLE@),
        sources: entries_found(txn, BY_SOURCE_TABLE@),
        targets: entries_found(txn, BY_TARGET_TABLE@),
    }
}

/// What a snapshot of the three tables holds.
pub open spec fn snapshot(rows: RowReader, sources: IndexReader, targets: IndexReader) -> TablesView {
    TablesView {
        rows: rows_read(rows),
        sources: entries_read(sources),
        targets: entries_read(targets),
    }
}

/// Every row is an edge and stands under its id, and the indexes list exactly the
/// endpoints of the rows.
pub open spec fn indexed(t: TablesView) -> bool {
    &&& forall|k: Seq<char>| #[trigger]
        t.rows.contains_key(k) ==> edge_of_json(t.rows[k]) is Some && edge_of_json(
            t.rows[k],
        )->0.relation_id == k
    &&& forall|c: u64, k: Seq<char>| #[trigger]
        t.sources.contains((c, k)) <==> t.rows.contains_key(k) && edge_of_json(
            t.rows[k],
        )->0.source_chunk_id == c
    &&& forall|c: u64, k: Seq<char>| #[trigger]
        t.targets.contains((c, k)) <==> t.rows.contains_key(k) && edge_of_json(
            t.rows[k],
        )->0.target_chunk_id == c
}

// ── Writing ─────────────────────────────────────────────────────────────

/// The tables after an edge was put in, given the edge of the row under the same
/// id. The index entries of that row are dropped where its endpoints differ.
pub open spec fn put_in(
    t: TablesView,
    prior: Option<EdgeView>,
    e: EdgeView,
    row: Seq<u8>,
) -> TablesView {
    let sources = match prior {
        Some(old) => if old.source_chunk_id != e.source_chunk_id {
            t.sources.remove((old.source_chunk_id, old.relation_id))
        } else {
            t.sources
        },
        None => t.sources,
    };
    let targets = match prior {
        Some(old) => if old.target_chunk_id != e.target_chunk_id {
            t.targets.remove((old.target_chunk_id, old.relation_id))
        } else {
            t.targets
        },
        None => t.targets,
    };
    TablesView {
        rows: t.rows.insert(e.relation_id, row),
        sources: sources.insert((e.source_chunk_id, e.relation_id)),
        targets: targets.insert((e.target_chunk_id, e.relation_id)),
    }
}

/// The tables after a row was put in; nothing if it, or the row under the same
/// id, is no edge.
pub open spec fn upsert(t: TablesView, row: Seq<u8>) -> Option<TablesView> {
    match edge_of_json(row) {
        None => None,
        Some(e) => match lookup(t.rows, e.relation_id) {
            None => Some(put_in(t, None, e, row)),
            Some(bytes) => match edge_of_json(bytes) {
                None => None,
                Some(old) => Some(put_in(t, Some(old), e, row)),
            },
        },
    }
}

/// The tables after a batch of rows was put in, one after the other.
pub open spec fn upserted(t: TablesView, batch: Seq<Seq<u8>>) -> Option<TablesView>
    decreases batch.len(),
{
    if batch.len() == 0 {
        Some(t)
    } else {
        match upserted(t, batch.drop_last()) {
            Some(before) => upsert(before, batch.last()),
            None => None,
        }
    }
}

/// The error for a row that is no edge.
pub open spec fn is_no_edge(e: EngineError) -> bool {
    e@ == failure("a stored relation is not an edge"@)
}

fn no_edge() -> (r: EngineError)
    ensures
        is_no_edge(r),
{
    failed("a stored relation is not an edge")
}

/// Puts a row in.
fn upsert_row(txn: &mut redb::WriteTransaction, row: &Vec<u8>) -> (r: Result<(), EngineError>)
    ensures
        r matches Err(e) ==> !e@.not_found,
        r matches Err(e) ==> shows_database_error(e) || is_no_edge(e) && upsert(
            tables(*old(txn)),
            row@,
        ) is None,
        r is Ok ==> upsert(tables(*old(txn)), row@) == Some(tables(*final(txn))),
        r is Ok ==> same_write(*old(txn), *final(txn)),
{
    proof {
        lemma_tables_have_names();
    }
    let e = match edge_from_json(row) {
        Some(e) => e,
        None => {
            return Err(no_edge());
        },
    };
    let prior = match get_row(txn, RELATIONS_TABLE, e.relation_id.as_str()) {
        Ok(p) => p,
        Err(x) => {
            return Err(database_failed(x));
        },
    };
    if let Some(bytes) = prior {
        let old_edge = match edge_from_json(&bytes) {
            Some(o) => o,
            None => {
                return Err(no_edge());
            },
        };
        let old_id = old_edge.relation_id.as_str();
        if old_edge.source_chunk_id != e.source_chunk_id {
            match take_entry(txn, BY_SOURCE_TABLE, old_edge.source_chunk_id, old_id) {
                Ok(()) => {},
                Err(x) => {
                    return Err(database_failed(x));
                },
            }
        }
        if old_edge.target_chunk_id != e.target_chunk_id {
            match take_entry(txn, BY_TARGET_TABLE, old_edge.target_chunk_id, old_id) {
                Ok(()) => {},
                Err(x) => {
                    return Err(database_failed(x));
                },
            }
        }
    }
    match put_row(txn, RELATIONS_TABLE, e.relation_id.as_str(), row) {
        Ok(()) => {},
        Err(x) => {
            return Err(database_failed(x));
        },
    }
    match put_entry(txn, BY_SOURCE_TABLE, e.source_chunk_id, e.relation_id.as_str()) {
        Ok(()) => {},
        Err(x) => {
            return Err(database_failed(x));
        },
    }
    match put_entry(txn, BY_TARGET_TABLE, e.target_chunk_id, e.relation_id.as_str()) {
        Ok(()) => Ok(()),
        Err(x) => Err(database_failed(x)),
    }
}

proof fn lemma_refused_row(t: TablesView, batch: Seq<Seq<u8>>, n: int)
    requires
        0 <= n <= batch.len(),
        upserted(t, batch.subrange(0, n)) is None,
    ensures
        upserted(t, batch) is None,
    decreases batch.len() - n,
{
    if n == batch.len() {
        assert(batch.subrange(0, n) =~= batch);
    } else {
        assert(batch.subrange(0, n + 1).drop_last() =~= batch.subrange(0, n));
        lemma_refused_row(t, batch, n + 1);
    }
}

/// Puts a batch of rows into the tables of a write transaction.
pub fn upsert_rows(txn: &mut redb::WriteTransaction, batch: &Vec<Vec<u8>>) -> (r: Result<
    (),
    EngineError,
>)
    ensures
        r matches Err(e) ==> !e@.not_found,
        r matches Err(e) ==> shows_database_error(e) || is_no_edge(e) && upserted(
            tables(*old(txn)),
            byte_views(batch@),
        ) is None,
        r is Ok ==> upserted(tables(*old(txn)), byte_views(batch@)) == Some(tables(*final(txn))),
        r is Ok ==> same_write(*old(txn), *final(txn)),
{
    let ghost start = tables(*txn);
    let ghost all = byte_views(batch@);
    let mut i: usize = 0;
    proof {
        assert(all.subrange(0, 0) =~= Seq::empty());
    }
    while i < batch.len()
        invariant
            i <= batch@.len(),
            all == byte_views(batch@),
            upserted(start, all.subrange(0, i as int)) == Some(tables(*txn)),
            start == tables(*old(txn)),
            same_write(*old(txn), *txn),
        decreases batch.len() - i,
    {
        proof {
            let longer = all.subrange(0, i + 1);
            assert(longer.drop_last() =~= all.subrange(0, i as int));
            assert(longer.last() == batch@[i as int]@);
        }
        match upsert_row(txn, &batch[i]) {
            Ok(()) => {},
            Err(e) => {
                proof {
                    if upserted(start, all.subrange(0, i + 1)) is None {
                        lemma_refused_row(start, all, i + 1);
                    }
                }
                return Err(e);
            },
        }
        i = i + 1;
    }
    proof {
        assert(all.subrange(0, all.len() as int) =~= all);
    }
    Ok(())
}

/// The tables after the edge under an id was taken out.
pub open spec fn taken_out(t: TablesView, id: Seq<char>, e: EdgeView) -> TablesView {
    TablesView {
        rows: t.rows.remove(id),
        sources: t.sources.remove((e.source_chunk_id, id)),
        targets: t.targets.remove((e.target_chunk_id, id)),
    }
}

// ── Reading ─────────────────────────────────────────────────────────────

/// A list with the elements of another that it lacks.
pub open spec fn with_missing(ids: Seq<Seq<char>>, more: Seq<Seq<char>>) -> Seq<Seq<char>>
    decreases more.len(),
{
    if more.len() == 0 {
        ids
    } else {
        let before = with_missing(ids, more.drop_last());
        if before.contains(more.last()) {
            before
        } else {
            before.push(more.last())
        }
    }
}

/// The ids to look up for a chunk: those of the edges that leave it, then those
/// of the edges that reach it, as far as they are asked for, none twice.
pub open spec fn ids_to_read(
    dir: RelationDirection,
    leaving: Seq<Seq<char>>,
    reaching: Seq<Seq<char>>,
) -> Seq<Seq<char>> {
    let first = if dir != RelationDirection::Incoming {
        leaving
    } else {
        Seq::empty()
    };
    if dir != RelationDirection::Outgoing {
        with_missing(first, reaching)
    } else {
        first
    }
}

/// The lists hold what the two indexes have for a chunk, as far as that is asked
/// for.
pub open spec fn asked_entries(
    sources: Set<(u64, Seq<char>)>,
    targets: Set<(u64, Seq<char>)>,
    chunk: u64,
    dir: RelationDirection,
    leaving: Seq<Seq<char>>,
    reaching: Seq<Seq<char>>,
) -> bool {
    &&& dir != RelationDirection::Incoming ==> lists_entries(leaving, sources, chunk)
    &&& dir != RelationDirection::Outgoing ==> lists_entries(reaching, targets, chunk)
}

/// The ids to look up for a chunk.
fn relation_ids(
    sources: &IndexReader,
    targets: &IndexReader,
    chunk: u64,
    dir: RelationDirection,
) -> (r: Result<Vec<String>, EngineError>)
    ensures
        r matches Err(e) ==> !e@.not_found,
        r matches Err(e) ==> shows_database_error(e),
        r matches Ok(v) ==> exists|leaving: Seq<Seq<char>>, reaching: Seq<Seq<char>>|
            #![trigger ids_to_read(dir, leaving, reaching)]
            asked_entries(
                entries_read(*sources),
                entries_read(*targets),
                chunk,
                dir,
                leaving,
                reaching,
            ) && text_views(v@) == ids_to_read(dir, leaving, reaching),
{
    let mut ids: Vec<String> = Vec::new();
    proof {
        assert(text_views(ids@) =~= Seq::empty());
    }
    match dir {
        RelationDirection::Incoming => {},
        _ => {
            ids = match sources.ids(chunk) {
                Ok(v) => v,
                Err(x) => {
                    return Err(database_failed(x));
                },
            };
        },
    }
    let ghost l = text_views(ids@);
    let mut g: Ghost<Seq<Seq<char>>> = Ghost(Seq::empty());
    match dir {
        RelationDirection::Outgoing => {},
        _ => {
            let reaching = match targets.ids(chunk) {
                Ok(v) => v,
                Err(x) => {
                    return Err(database_failed(x));
                },
            };
            proof {
                g@ = text_views(reaching@);
            }
            let ghost start = text_views(ids@);
            let ghost source = reaching@;
            let mut done: Ghost<int> = Ghost(0);
            proof {
                assert(g@.subrange(0, 0) =~= Seq::empty());
            }
            for id in it: reaching
                invariant
                    it.seq() == source,
                    g@ == text_views(source),
                    done@ == it.index(),
                    0 <= done@ <= g@.len(),
                    text_views(ids@) == with_missing(start, g@.subrange(0, done@)),
            {
                let ghost before = text_views(ids@);
                let ghost v = id@;
                proof {
                    let longer = g@.subrange(0, done@ + 1);
                    assert(longer.drop_last() =~= g@.subrange(0, done@));
                    assert(longer.last() == v);
                    done@ = done@ + 1;
                }
                if !texts_contain(&ids, id.as_str()) {
                    ids.push(id);
                    proof {
                        assert(text_views(ids@) =~= before.push(v));
                    }
                }
            }
            proof {
                assert(g@.subrange(0, g@.len() as int) =~= g@);
            }
        },
    }
    proof {
        assert(text_views(ids@) == ids_to_read(dir, l, g@));
    }
    Ok(ids)
}

/// The type is asked for: any type is, unless some are named.
pub open spec fn type_asked(types: Option<Seq<Seq<char>>>, t: Seq<char>) -> bool {
    types is None || types->0.contains(t)
}

/// The row is an edge of the chunk, of a type that is asked for. The endpoints
/// are looked at again, so that an index entry that is out of date does no harm.
pub open spec fn edge_asked(row: Seq<u8>, chunk: u64, types: Option<Seq<Seq<char>>>) -> bool {
    match edge_of_json(row) {
        Some(e) => (e.source_chunk_id == chunk || e.target_chunk_id == chunk) && type_asked(
            types,
            e.relation_type,
        ),
        None => false,
    }
}

/// The rows under some ids that are asked for, in the order of the ids.
pub open spec fn rows_asked(
    rows: Map<Seq<char>, Seq<u8>>,
    ids: Seq<Seq<char>>,
    chunk: u64,
    types: Option<Seq<Seq<char>>>,
) -> Seq<Seq<u8>>
    decreases ids.len(),
{
    if ids.len() == 0 {
        Seq::empty()
    } else {
        let before = rows_asked(rows, ids.drop_last(), chunk, types);
        let id = ids.last();
        if rows.contains_key(id) && edge_asked(rows[id], chunk, types) {
            before.push(rows[id])
        } else {
            before
        }
    }
}

/// The optional list of types.
pub open spec fn types_view(o: Option<Vec<String>>) -> Option<Seq<Seq<char>>> {
    match o {
        Some(v) => Some(text_views(v@)),
        None => None,
    }
}

/// Each row under one of the ids is an edge.
pub open spec fn rows_readable(rows: Map<Seq<char>, Seq<u8>>, ids: Seq<Seq<char>>) -> bool {
    forall|i: int|
        0 <= i < ids.len() && rows.contains_key(#[trigger] ids[i]) ==> edge_of_json(
            rows[ids[i]],
        ) is Some
}

/// `out` are the edges of a chunk that are asked for: those that leave it in the
/// order of their ids, then those that reach it in the order of theirs. Every row
/// that is looked at is an edge.
pub open spec fn edges_read(
    t: TablesView,
    chunk: u64,
    dir: RelationDirection,
    types: Option<Seq<Seq<char>>>,
    out: Seq<Seq<u8>>,
) -> bool {
    exists|leaving: Seq<Seq<char>>, reaching: Seq<Seq<char>>|
        #![trigger ids_to_read(dir, leaving, reaching)]
        asked_entries(t.sources, t.targets, chunk, dir, leaving, reaching) && rows_readable(
            t.rows,
            ids_to_read(dir, leaving, reaching),
        ) && out == rows_asked(t.rows, ids_to_read(dir, leaving, reaching), chunk, types)
}

/// One of the rows that are looked at for a chunk is no edge.
pub open spec fn edges_unreadable(t: TablesView, chunk: u64, dir: RelationDirection) -> bool {
    exists|leaving: Seq<Seq<char>>, reaching: Seq<Seq<char>>|
        #![trigger ids_to_read(dir, leaving, reaching)]
        asked_entries(t.sources, t.targets, chunk, dir, leaving, reaching) && !rows_readable(
            t.rows,
            ids_to_read(dir, leaving, reaching),
        )
}

/// The edges of a chunk that are asked for, out of a snapshot of the tables.
pub fn read_edges(
    rows: &RowReader,
    sources: &IndexReader,
    targets: &IndexReader,
    chunk: u64,
    dir: RelationDirection,
    types: &Option<Vec<String>>,
) -> (r: Result<Vec<Vec<u8>>, EngineError>)
    ensures
        r matches Err(e) ==> !e@.not_found,
        r matches Err(e) ==> shows_database_error(e) || is_no_edge(e) && edges_unreadable(
            snapshot(*rows, *sources, *targets),
            chunk,
            dir,
        ),
        r matches Ok(v) ==> edges_read(
            snapshot(*rows, *sources, *targets),
            chunk,
            dir,
            types_view(*types),
            byte_views(v@),
        ),
        r matches Ok(v) ==> all_asked(byte_views(v@), chunk, types_view(*types)),
{
    let ids = match relation_ids(sources, targets, chunk, dir) {
        Ok(v) => v,
        Err(e) => {
            return Err(e);
        },
    };
    let ghost t = snapshot(*rows, *sources, *targets);
    let ghost all = text_views(ids@);
    let ghost asked = types_view(*types);
    let ghost (leaving, reaching) = choose|leaving: Seq<Seq<char>>, reaching: Seq<Seq<char>>|
        #![trigger ids_to_read(dir, leaving, reaching)]
        asked_entries(t.sources, t.targets, chunk, dir, leaving, reaching) && all == ids_to_read(
            dir,
            leaving,
            reaching,
        );
    let mut out: Vec<Vec<u8>> = Vec::new();
    let mut i: usize = 0;
    proof {
        assert(all.subrange(0, 0) =~= Seq::empty());
        assert(byte_views(out@) =~= Seq::empty());
    }
    while i < ids.len()
        invariant
            i <= ids@.len(),
            all == text_views(ids@),
            t == snapshot(*rows, *sources, *targets),
            asked_entries(t.sources, t.targets, chunk, dir, leaving, reaching),
            all == ids_to_read(dir, leaving, reaching),
            rows_readable(t.rows, all.subrange(0, i as int)),
            asked == types_view(*types),
            byte_views(out@) == rows_asked(t.rows, all.subrange(0, i as int), chunk, asked),
            all_asked(byte_views(out@), chunk, asked),
        decreases ids.len() - i,
    {
        proof {
            let longer = all.subrange(0, i + 1);
            assert(longer.drop_last() =~= all.subrange(0, i as int));
            assert(longer.last() == ids@[i as int]@);
        }
        match rows.get(ids[i].as_str()) {
            Err(x) => {
                return Err(database_failed(x));
            },
            Ok(None) => {},
            Ok(Some(row)) => {
                let e = match edge_from_json(&row) {
                    Some(e) => e,
                    None => {
                        proof {
                            assert(t.rows.contains_key(all[i as int]));
                            assert(!rows_readable(t.rows, all));
                        }
                        return Err(no_edge());
                    },
                };
                let of_type = match types {
                    Some(l) => texts_contain(l, e.relation_type.as_str()),
                    None => true,
                };
                if (e.source_chunk_id == chunk || e.target_chunk_id == chunk) && of_type {
                    let ghost before = byte_views(out@);
                    let ghost v = row@;
                    out.push(row);
                    proof {
                        assert(byte_views(out@) =~= before.push(v));
                        assert(edge_asked(v, chunk, asked));
                    }
                }
            },
        }
        proof {
            let shorter = all.subrange(0, i as int);
            let longer = all.subrange(0, i + 1);
            assert forall|k: int|
                0 <= k < longer.len() && t.rows.contains_key(#[trigger] longer[k]) implies
                edge_of_json(t.rows[longer[k]]) is Some by {
                if k < i {
                    assert(longer[k] == shorter[k]);
                }
            }
        }
        i = i + 1;
    }
    proof {
        assert(all.subrange(0, all.len() as int) =~= all);
        assert(byte_views(out@) == rows_asked(
            t.rows,
            ids_to_read(dir, leaving, reaching),
            chunk,
            asked,
        ));
        assert(edges_read(t, chunk, dir, asked, byte_views(out@)));
    }
    Ok(out)
}

/// Each row is an edge of the chunk, of a type that is asked for.
pub open spec fn all_asked(
    rows: Seq<Seq<u8>>,
    chunk: u64,
    types: Option<Seq<Seq<char>>>,
) -> bool {
    forall|i: int| 0 <= i < rows.len() ==> edge_asked(#[trigger] rows[i], chunk, types)
}

/// A page of edges: each of the chunks that has any that are asked for, with
/// them; and no other chunk.
pub open spec fn page_of(
    t: TablesView,
    chunks: Seq<u64>,
    dir: RelationDirection,
    types: Option<Seq<Seq<char>>>,
    page: Map<u64, Seq<Vec<u8>>>,
) -> bool {
    &&& forall|c: u64| #[trigger]
        page.contains_key(c) ==> chunks.contains(c) && page[c].len() > 0 && edges_read(
            t,
            c,
            dir,
            types,
            byte_views(page[c]),
        ) && all_asked(byte_views(page[c]), c, types)
    &&& forall|i: int|
        0 <= i < chunks.len() && !page.contains_key(#[trigger] chunks[i]) ==> edges_read(
            t,
            chunks[i],
            dir,
            types,
            Seq::empty(),
        )
}

/// One of the rows that are looked at for the chunks of a page is no edge.
pub open spec fn page_unreadable(t: TablesView, chunks: Seq<u64>, dir: RelationDirection) -> bool {
    exists|i: int| 0 <= i < chunks.len() && edges_unreadable(t, #[trigger] chunks[i], dir)
}

/// A page of edges out of a snapshot of the tables.
pub fn read_page(
    rows: &RowReader,
    sources: &IndexReader,
    targets: &IndexReader,
    chunks: &Vec<u64>,
    dir: RelationDirection,
    types: &Option<Vec<String>>,
) -> (r: Result<IdMap<Vec<Vec<u8>>>, EngineError>)
    ensures
        r matches Err(e) ==> !e@.not_found,
        r matches Err(e) ==> shows_database_error(e) || is_no_edge(e) && page_unreadable(
            snapshot(*rows, *sources, *targets),
            chunks@,
            dir,
        ),
        r matches Ok(page) ==> page_of(
            snapshot(*rows, *sources, *targets),
            chunks@,
            dir,
            types_view(*types),
            page@,
        ),
{
    let ghost t = snapshot(*rows, *sources, *targets);
    let ghost asked = types_view(*types);
    let mut page: IdMap<Vec<Vec<u8>>> = IdMap::new();
    let mut i: usize = 0;
    while i < chunks.len()
        invariant
            i <= chunks@.len(),
            t == snapshot(*rows, *sources, *targets),
            asked == types_view(*types),
            forall|c: u64| #[trigger]
                page@.contains_key(c) ==> chunks@.contains(c) && page@[c].len() > 0 && edges_read(
                    t,
                    c,
                    dir,
                    asked,
                    byte_views(page@[c]),
                ) && all_asked(byte_views(page@[c]), c, asked),
            forall|k: int|
                0 <= k < i && !page@.contains_key(#[trigger] chunks@[k]) ==> edges_read(
                    t,
                    chunks@[k],
                    dir,
                    asked,
                    Seq::empty(),
                ),
        decreases chunks.len() - i,
    {
        let chunk: u64 = chunks[i];
        let edges = match read_edges(rows, sources, targets, chunk, dir, types) {
            Ok(v) => v,
            Err(e) => {
                return Err(e);
            },
        };
        if edges.len() > 0 {
            proof {
                assert(chunks@.contains(chunk));
            }
            page.insert(chunk, edges);
        } else {
            proof {
                assert(byte_views(edges@) =~= Seq::empty());
            }
        }
        i = i + 1;
    }
    Ok(page)
}

proof fn lemma_tables_have_names()
    ensures
        RELATIONS_TABLE@.len() > 0,
        BY_SOURCE_TABLE@.len() > 0,
        BY_TARGET_TABLE@.len() > 0,
        BY_SOURCE_TABLE@ != BY_TARGET_TABLE@,
{
    reveal_strlit("relations");
    reveal_strlit("by_source_idx");
    reveal_strlit("by_target_idx");
    assert(BY_SOURCE_TABLE@[3] != BY_TARGET_TABLE@[3]);
}

// ── The store ───────────────────────────────────────────────────────────

/// What a read transaction sees in the three tables.
pub open spec fn tables_at(txn: redb::ReadTransaction) -> TablesView {
    TablesView {
        rows: rows_at(txn, RELATIONS_TABLE@),
        sources: entries_at(txn, BY_SOURCE_TABLE@),
        targets: entries_at(txn, BY_TARGET_TABLE@),
    }
}

/// A read transaction on the database saw these tables.
pub open spec fn seen(db: redb::Database, t: TablesView) -> bool {
    exists|txn: redb::ReadTransaction| #[trigger] began_read(txn, db) && t == tables_at(txn)
}

/// The write transaction was begun on the database and committed, with what the three
/// tables then held in place of what it found.
pub open spec fn wrote(
    txn: redb::WriteTransaction,
    db: redb::Database,
    before: TablesView,
    after: TablesView,
) -> bool {
    &&& began_write(txn, db)
    &&& committed(txn)
    &&& tables_found(txn) == before
    &&& tables(txn) == after
}

/// The three tables exist in a write transaction.
pub open spec fn has_tables(txn: redb::WriteTransaction) -> bool {
    has_table(txn, RELATIONS_TABLE@) && has_table(txn, BY_SOURCE_TABLE@) && has_table(
        txn,
        BY_TARGET_TABLE@,
    )
}

/// The three tables were made, where they did not exist, and nothing in them was
/// changed.
pub open spec fn made_tables(db: redb::Database) -> bool {
    exists|txn: redb::WriteTransaction, t: TablesView| #[trigger]
        wrote(txn, db, t, t) && has_tables(txn)
}

/// A batch of rows was put in and committed, in one transaction: the tables that it
/// committed are what it found with the batch put in.
pub open spec fn batch_stored(db: redb::Database, batch: Seq<Seq<u8>>) -> bool {
    exists|txn: redb::WriteTransaction, before: TablesView, after: TablesView| #[trigger]
        wrote(txn, db, before, after) && upserted(before, batch) == Some(after)
}

/// What a read transaction saw under an id: an edge, or nothing.
pub open spec fn edge_seen(db: redb::Database, id: Seq<char>, e: Option<EdgeView>) -> bool {
    exists|t: TablesView| #[trigger]
        seen(db, t) && match lookup(t.rows, id) {
            Some(row) => edge_of_json(row) is Some && e == edge_of_json(row),
            None => e is None,
        }
}

/// A batch of rows was refused: it, or a row under one of its ids, is no edge.
pub open spec fn batch_refused(db: redb::Database, batch: Seq<Seq<u8>>) -> bool {
    exists|txn: redb::WriteTransaction| #[trigger]
        began_write(txn, db) && upserted(tables_found(txn), batch) is None
}

/// A read transaction saw a row under an id that is no edge.
pub open spec fn row_unreadable(db: redb::Database, id: Seq<char>) -> bool {
    exists|t: TablesView| #[trigger]
        seen(db, t) && t.rows.contains_key(id) && edge_of_json(t.rows[id]) is None
}

/// The edge of an id was taken out, in one transaction: the tables that it committed
/// are what it found without the edge.
pub open spec fn edge_removed(db: redb::Database, id: Seq<char>, e: EdgeView) -> bool {
    exists|txn: redb::WriteTransaction, before: TablesView, after: TablesView| #[trigger]
        wrote(txn, db, before, after) && after == taken_out(before, id, e)
}

/// A delete of an edge: if it was there, it was seen and taken out; else nothing was
/// seen under its id.
pub open spec fn edge_deleted(db: redb::Database, id: Seq<char>, existed: bool) -> bool {
    if existed {
        exists|e: EdgeView| #[trigger] edge_removed(db, id, e) && edge_seen(db, id, Some(e))
    } else {
        edge_seen(db, id, None)
    }
}

/// The edges of a chunk that are asked for, as a read transaction saw them.
pub open spec fn edges_seen(
    db: redb::Database,
    chunk: u64,
    dir: RelationDirection,
    types: Option<Seq<Seq<char>>>,
    out: Seq<Seq<u8>>,
) -> bool {
    exists|t: TablesView| #[trigger] seen(db, t) && edges_read(t, chunk, dir, types, out)
}

/// A page of edges, as a read transaction saw them.
pub open spec fn page_seen(
    db: redb::Database,
    chunks: Seq<u64>,
    dir: RelationDirection,
    types: Option<Seq<Seq<char>>>,
    page: Map<u64, Seq<Vec<u8>>>,
) -> bool {
    exists|t: TablesView| #[trigger] seen(db, t) && page_of(t, chunks, dir, types, page)
}

/// A read transaction saw a row that is no edge among those to look at for a page.
pub open spec fn page_unreadable_in(
    db: redb::Database,
    chunks: Seq<u64>,
    dir: RelationDirection,
) -> bool {
    exists|t: TablesView| #[trigger] seen(db, t) && page_unreadable(t, chunks, dir)
}

/// The number of rows, as a read transaction saw them.
pub open spec fn count_seen(db: redb::Database, n: nat) -> bool {
    exists|t: TablesView| #[trigger] seen(db, t) && n == t.rows.dom().len()
}

/// Every edge that a read transaction saw for a chunk was deleted.
pub open spec fn chunk_pruned(db: redb::Database, chunk: u64) -> bool {
    exists|rows: Seq<Seq<u8>>| #[trigger]
        edges_seen(db, chunk, RelationDirection::Both, None, rows) && all_deleted(db, rows)
}

/// Each of the rows is an edge and was deleted, unless it was gone already.
pub open spec fn all_deleted(db: redb::Database, rows: Seq<Seq<u8>>) -> bool {
    forall|i: int|
        0 <= i < rows.len() ==> edge_of_json(#[trigger] rows[i]) is Some && (edge_deleted(
            db,
            edge_of_json(rows[i])->0.relation_id,
            true,
        ) || edge_deleted(db, edge_of_json(rows[i])->0.relation_id, false))
}

/// The relations of a collection, in a database of their own.
pub struct RelationStore {
    db: redb::Database,
}

impl RelationStore {
    /// The database of the store.
    pub closed spec fn database(&self) -> redb::Database {
        self.db
    }

    /// The store in a database that was opened. The tables are made if they do
    /// not exist, so that readers never miss one.
    pub fn with_database(db: redb::Database) -> (r: Result<RelationStore, EngineError>)
        ensures
            r matches Err(e) ==> !e@.not_found,
            r matches Err(e) ==> shows_database_error(e),
            r matches Ok(s) ==> s.database() == db && made_tables(db),
    {
        let mut txn = match begin_write(&db) {
            Ok(t) => t,
            Err(x) => {
                return Err(database_failed(x));
            },
        };
        match make_tables(&mut txn) {
            Ok(()) => {},
            Err(e) => {
                return Err(e);
            },
        }
        let ghost done = txn;
        match commit(txn) {
            Ok(()) => {
                proof {
                    assert(wrote(done, db, tables_found(done), tables_found(done)));
                }
                Ok(RelationStore { db })
            },
            Err(x) => Err(database_failed(x)),
        }
    }

    /// Puts a batch of edges in, in one transaction. An edge whose id is stored
    /// already takes that edge's place. A row that is no edge refuses the batch.
    pub fn insert_batch(&self, relations: &Vec<Vec<u8>>) -> (r: Result<(), EngineError>)
        ensures
            r matches Err(e) ==> !e@.not_found,
            r matches Err(e) ==> shows_database_error(e) || is_no_edge(e) && batch_refused(
                self.database(),
                byte_views(relations@),
            ),
            r is Ok ==> forall|i: int|
                0 <= i < relations@.len() ==> edge_of_json((#[trigger] relations@[i])@) is Some,
            r is Ok ==> batch_stored(self.database(), byte_views(relations@)),
    {
        let mut txn = match begin_write(&self.db) {
            Ok(t) => t,
            Err(x) => {
                return Err(database_failed(x));
            },
        };
        let ghost begun = txn;
        proof {
            assert(tables(begun) == tables_found(begun));
        }
        match upsert_rows(&mut txn, relations) {
            Ok(()) => {},
            Err(e) => {
                proof {
                    assert(began_write(begun, self.db));
                }
                return Err(e);
            },
        }
        let ghost done = txn;
        match commit(txn) {
            Ok(()) => {
                proof {
                    let batch = byte_views(relations@);
                    assert(tables_found(done) == tables_found(begun));
                    assert(wrote(done, self.db, tables_found(done), tables(done)));
                    lemma_upserted_edges(tables_found(done), batch);
                    assert forall|i: int| 0 <= i < relations@.len() implies edge_of_json(
                        (#[trigger] relations@[i])@,
                    ) is Some by {
                        assert(batch[i] == relations@[i]@);
                    }
                }
                Ok(())
            },
            Err(x) => Err(database_failed(x)),
        }
    }

    /// Deletes an edge. Tells whether it was there.
    pub fn delete(&self, relation_id: &str) -> (r: Result<bool, EngineError>)
        ensures
            r matches Err(e) ==> !e@.not_found,
            r matches Err(e) ==> shows_database_error(e) || is_no_edge(e) && row_unreadable(
                self.database(),
                relation_id@,
            ),
            r matches Ok(existed) ==> edge_deleted(self.database(), relation_id@, existed),
    {
        let existing = match self.stored(relation_id) {
            Ok(o) => o,
            Err(e) => {
                return Err(e);
            },
        };
        let edge = match existing {
            Some(e) => e,
            None => {
                return Ok(false);
            },
        };
        let mut txn = match begin_write(&self.db) {
            Ok(t) => t,
            Err(x) => {
                return Err(database_failed(x));
            },
        };
        let ghost begun = txn;
        proof {
            assert(tables(begun) == tables_found(begun));
        }
        match self.remove_in(&mut txn, relation_id, &edge) {
            Ok(()) => {},
            Err(e) => {
                return Err(e);
            },
        }
        let ghost done = txn;
        match commit(txn) {
            Ok(()) => {
                proof {
                    assert(tables_found(done) == tables_found(begun));
                    assert(wrote(done, self.db, tables_found(done), tables(done)));
                    assert(edge_removed(self.db, relation_id@, edge@));
                }
                Ok(true)
            },
            Err(x) => Err(database_failed(x)),
        }
    }

    fn stored(&self, relation_id: &str) -> (r: Result<Option<EdgeKey>, EngineError>)
        ensures
            r matches Err(e) ==> !e@.not_found,
            r matches Err(e) ==> shows_database_error(e) || is_no_edge(e) && row_unreadable(
                self.database(),
                relation_id@,
            ),
            r matches Ok(o) ==> edge_seen(self.database(), relation_id@, edge_view(o)),
    {
        let txn = match begin_read(&self.db) {
            Ok(t) => t,
            Err(x) => {
                return Err(database_failed(x));
            },
        };
        proof {
            lemma_tables_have_names();
        }
        let rows = match read_rows(&txn, RELATIONS_TABLE) {
            Ok(t) => t,
            Err(x) => {
                return Err(database_failed(x));
            },
        };
        proof {
            assert(seen(self.db, tables_at(txn)));
        }
        match rows.get(relation_id) {
            Ok(Some(bytes)) => match edge_from_json(&bytes) {
                Some(e) => Ok(Some(e)),
                None => Err(no_edge()),
            },
            Ok(None) => Ok(None),
            Err(x) => Err(database_failed(x)),
        }
    }

    /// Takes the edge under an id out of the tables of a write transaction.
    fn remove_in(
        &self,
        txn: &mut redb::WriteTransaction,
        relation_id: &str,
        edge: &EdgeKey,
    ) -> (r: Result<(), EngineError>)
        ensures
            r matches Err(e) ==> !e@.not_found,
            r matches Err(e) ==> shows_database_error(e),
            r is Ok ==> tables(*final(txn)) == taken_out(tables(*old(txn)), relation_id@, edge@),
            r is Ok ==> same_write(*old(txn), *final(txn)),
    {
        proof {
            lemma_tables_have_names();
        }
        match take_row(txn, RELATIONS_TABLE, relation_id) {
            Ok(()) => {},
            Err(x) => {
                return Err(database_failed(x));
            },
        }
        match take_entry(txn, BY_SOURCE_TABLE, edge.source_chunk_id, relation_id) {
            Ok(()) => {},
            Err(x) => {
                return Err(database_failed(x));
            },
        }
        match take_entry(txn, BY_TARGET_TABLE, edge.target_chunk_id, relation_id) {
            Ok(()) => Ok(()),
            Err(x) => Err(database_failed(x)),
        }
    }

    /// The edges of a chunk by direction and, where some are named, by type.
    pub fn for_chunk(
        &self,
        chunk_id: u64,
        dir: RelationDirection,
        types: &Option<Vec<String>>,
    ) -> (r: Result<Vec<Vec<u8>>, EngineError>)
        ensures
            r matches Err(e) ==> !e@.not_found,
            r matches Err(e) ==> shows_database_error(e) || is_no_edge(e) && page_unreadable_in(
                self.database(),
                seq![chunk_id],
                dir,
            ),
            r matches Ok(v) ==> all_asked(byte_views(v@), chunk_id, types_view(*types)),
            r matches Ok(v) ==> edges_seen(
                self.database(),
                chunk_id,
                dir,
                types_view(*types),
                byte_views(v@),
            ),
    {
        let mut one: Vec<u64> = Vec::new();
        one.push(chunk_id);
        proof {
            assert(one@ =~= seq![chunk_id]);
        }
        let mut page = match self.for_chunks(&one, dir, types) {
            Ok(p) => p,
            Err(e) => {
                return Err(e);
            },
        };
        let ghost found = page@;
        proof {
            let t = choose|t: TablesView| #[trigger]
                seen(self.db, t) && page_of(t, one@, dir, types_view(*types), found);
            assert(one@[0] == chunk_id);
            assert(!found.contains_key(chunk_id) ==> edges_read(
                t,
                chunk_id,
                dir,
                types_view(*types),
                Seq::empty(),
            ));
        }
        match page.remove(chunk_id) {
            Some(v) => Ok(v),
            None => {
                let none: Vec<Vec<u8>> = Vec::new();
                proof {
                    assert(byte_views(none@) =~= Seq::empty());
                }
                Ok(none)
            },
        }
    }

    /// The edges of a page of chunks, in one read transaction. A chunk without
    /// any is not in the result.
    pub fn for_chunks(
        &self,
        chunk_ids: &Vec<u64>,
        dir: RelationDirection,
        types: &Option<Vec<String>>,
    ) -> (r: Result<IdMap<Vec<Vec<u8>>>, EngineError>)
        ensures
            r matches Err(e) ==> !e@.not_found,
            r matches Err(e) ==> shows_database_error(e) || is_no_edge(e) && page_unreadable_in(
                self.database(),
                chunk_ids@,
                dir,
            ),
            r matches Ok(page) ==> forall|c: u64| #[trigger]
                page@.contains_key(c) ==> chunk_ids@.contains(c) && page@[c].len() > 0
                    && all_asked(byte_views(page@[c]), c, types_view(*types)),
            r matches Ok(page) ==> page_seen(
                self.database(),
                chunk_ids@,
                dir,
                types_view(*types),
                page@,
            ),
    {
        let txn = match begin_read(&self.db) {
            Ok(t) => t,
            Err(x) => {
                return Err(database_failed(x));
            },
        };
        proof {
            lemma_tables_have_names();
        }
        let rows = match read_rows(&txn, RELATIONS_TABLE) {
            Ok(t) => t,
            Err(x) => {
                return Err(database_failed(x));
            },
        };
        let sources = match read_index(&txn, BY_SOURCE_TABLE) {
            Ok(t) => t,
            Err(x) => {
                return Err(database_failed(x));
            },
        };
        let targets = match read_index(&txn, BY_TARGET_TABLE) {
            Ok(t) => t,
            Err(x) => {
                return Err(database_failed(x));
            },
        };
        proof {
            assert(seen(self.db, tables_at(txn)));
            assert(snapshot(rows, sources, targets) == tables_at(txn));
        }
        read_page(&rows, &sources, &targets, chunk_ids, dir, types)
    }

    /// Deletes every edge of a chunk: what a deleted chunk leaves behind.
    pub fn prune_chunk(&self, chunk_id: u64) -> (r: Result<(), EngineError>)
        ensures
            r matches Err(e) ==> !e@.not_found,
            r matches Err(e) ==> shows_database_error(e) || is_no_edge(e) && (page_unreadable_in(
                self.database(),
                seq![chunk_id],
                RelationDirection::Both,
            ) || exists|id: Seq<char>| #[trigger] row_unreadable(self.database(), id)),
            r is Ok ==> chunk_pruned(self.database(), chunk_id),
    {
        let rows = match self.for_chunk(chunk_id, RelationDirection::Both, &None) {
            Ok(v) => v,
            Err(e) => {
                return Err(e);
            },
        };
        let ghost all = byte_views(rows@);
        let mut i: usize = 0;
        while i < rows.len()
            invariant
                i <= rows@.len(),
                all == byte_views(rows@),
                all_asked(all, chunk_id, None),
                all_deleted(self.database(), all.subrange(0, i as int)),
            decreases rows.len() - i,
        {
            proof {
                assert(edge_asked(all[i as int], chunk_id, None));
            }
            let edge = match edge_from_json(&rows[i]) {
                Some(e) => e,
                None => {
                    return Err(no_edge());
                },
            };
            match self.delete(edge.relation_id.as_str()) {
                Ok(_) => {},
                Err(e) => {
                    return Err(e);
                },
            }
            proof {
                let shorter = all.subrange(0, i as int);
                let longer = all.subrange(0, i + 1);
                assert forall|k: int| 0 <= k < longer.len() implies edge_of_json(
                    #[trigger] longer[k],
                ) is Some && (edge_deleted(
                    self.database(),
                    edge_of_json(longer[k])->0.relation_id,
                    true,
                ) || edge_deleted(
                    self.database(),
                    edge_of_json(longer[k])->0.relation_id,
                    false,
                )) by {
                    if k < i {
                        assert(longer[k] == shorter[k]);
                    }
                }
            }
            i = i + 1;
        }
        proof {
            assert(all.subrange(0, all.len() as int) =~= all);
        }
        Ok(())
    }

    /// The number of edges.
    pub fn count(&self) -> (r: Result<u64, EngineError>)
        ensures
            r matches Err(e) ==> !e@.not_found,
            r matches Err(e) ==> shows_database_error(e),
            r matches Ok(n) ==> count_seen(self.database(), n as nat),
    {
        let txn = match begin_read(&self.db) {
            Ok(t) => t,
            Err(x) => {
                return Err(database_failed(x));
            },
        };
        proof {
            lemma_tables_have_names();
        }
        let rows = match read_rows(&txn, RELATIONS_TABLE) {
            Ok(t) => t,
            Err(x) => {
                return Err(database_failed(x));
            },
        };
        proof {
            assert(seen(self.db, tables_at(txn)));
        }
        match rows.len() {
            Ok(n) => Ok(n),
            Err(x) => Err(database_failed(x)),
        }
    }
}

/// Makes those of the three tables that do not exist.
fn make_tables(txn: &mut redb::WriteTransaction) -> (r: Result<(), EngineError>)
    ensures
        r matches Err(e) ==> !e@.not_found,
        r matches Err(e) ==> shows_database_error(e),
        r is Ok ==> has_tables(*final(txn)),
        r is Ok ==> tables(*final(txn)) == tables(*old(txn)),
        r is Ok ==> same_write(*old(txn), *final(txn)),
{
    proof {
        lemma_tables_have_names();
    }
    match make_rows(txn, RELATIONS_TABLE) {
        Ok(()) => {},
        Err(x) => {
            return Err(database_failed(x));
        },
    }
    match make_index(txn, BY_SOURCE_TABLE) {
        Ok(()) => {},
        Err(x) => {
            return Err(database_failed(x));
        },
    }
    match make_index(txn, BY_TARGET_TABLE) {
        Ok(()) => Ok(()),
        Err(x) => Err(database_failed(x)),
    }
}

proof fn lemma_upserted_edges(t: TablesView, batch: Seq<Seq<u8>>)
    requires
        upserted(t, batch) is Some,
    ensures
        forall|i: int| 0 <= i < batch.len() ==> edge_of_json(#[trigger] batch[i]) is Some,
    decreases batch.len(),
{
    if batch.len() > 0 {
        let init = batch.drop_last();
        lemma_upserted_edges(t, init);
        assert forall|i: int| 0 <= i < batch.len() implies edge_of_json(
            #[trigger] batch[i],
        ) is Some by {
            if i < init.len() {
                assert(init[i] == batch[i]);
            }
        }
    }
}

// ── Laws ────────────────────────────────────────────────────────────────

proof fn lemma_upsert(t: TablesView, row: Seq<u8>)
    requires
        indexed(t),
        edge_of_json(row) is Some,
    ensures
        upsert(t, row) is Some,
        indexed(upsert(t, row)->0),
        upsert(t, row)->0.rows == t.rows.insert(edge_of_json(row)->0.relation_id, row),
{
    let e = edge_of_json(row)->0;
    if t.rows.contains_key(e.relation_id) {
        assert(edge_of_json(t.rows[e.relation_id]) is Some);
    }
}

/// The rows after a batch: each edge stands under its id, later ones in place of
/// earlier ones.
pub open spec fn rows_after(rows: Map<Seq<char>, Seq<u8>>, batch: Seq<Seq<u8>>) -> Map<
    Seq<char>,
    Seq<u8>,
>
    decreases batch.len(),
{
    if batch.len() == 0 {
        rows
    } else {
        rows_after(rows, batch.drop_last()).insert(
            edge_of_json(batch.last())->0.relation_id,
            batch.last(),
        )
    }
}

/// Putting edges in keeps the indexes exact, also where an edge under the same id
/// had other endpoints, and the rows are what was put in last.
pub proof fn law_upserts_keep_indexes(t: TablesView, batch: Seq<Seq<u8>>)
    requires
        indexed(t),
        forall|i: int| 0 <= i < batch.len() ==> edge_of_json(#[trigger] batch[i]) is Some,
    ensures
        upserted(t, batch) is Some,
        indexed(upserted(t, batch)->0),
        upserted(t, batch)->0.rows == rows_after(t.rows, batch),
    decreases batch.len(),
{
    if batch.len() > 0 {
        let init = batch.drop_last();
        assert forall|i: int| 0 <= i < init.len() implies edge_of_json(
            #[trigger] init[i],
        ) is Some by {
            assert(init[i] == batch[i]);
        }
        law_upserts_keep_indexes(t, init);
        assert(edge_of_json(batch[batch.len() - 1]) is Some);
        lemma_upsert(upserted(t, init)->0, batch.last());
    }
}

/// Taking an edge out keeps the indexes exact, and nothing else goes.
pub proof fn law_removal_keeps_indexes(t: TablesView, id: Seq<char>)
    requires
        indexed(t),
        t.rows.contains_key(id),
    ensures
        indexed(taken_out(t, id, edge_of_json(t.rows[id])->0)),
        taken_out(t, id, edge_of_json(t.rows[id])->0).rows == t.rows.remove(id),
{
}

/// Putting an edge in twice is putting it in once.
pub proof fn law_upsert_is_idempotent(t: TablesView, row: Seq<u8>)
    requires
        indexed(t),
        edge_of_json(row) is Some,
    ensures
        upserted(t, seq![row, row]) == upserted(t, seq![row]),
{
    reveal_with_fuel(upserted, 3);
    assert(seq![row, row].drop_last() =~= seq![row]);
    assert(seq![row].drop_last() =~= Seq::empty());
    lemma_upsert(t, row);
    let once = upserted(t, seq![row])->0;
    lemma_upsert(once, row);
    let twice = upserted(t, seq![row, row])->0;
    assert(twice.rows =~= once.rows);
    assert(twice.sources =~= once.sources);
    assert(twice.targets =~= once.targets);
}

/// The edge leaves or reaches the chunk, as far as that is asked for.
pub open spec fn edge_of(e: EdgeView, chunk: u64, dir: RelationDirection) -> bool {
    ||| dir != RelationDirection::Incoming && e.source_chunk_id == chunk
    ||| dir != RelationDirection::Outgoing && e.target_chunk_id == chunk
}

proof fn lemma_alphabetical_once(s: Seq<Seq<char>>)
    requires
        alphabetical(s),
    ensures
        s.no_duplicates(),
{
    assert forall|i: int, j: int| 0 <= i < s.len() && 0 <= j < s.len() && i != j implies s[i]
        != s[j] by {
        lemma_text_order(s[i], s[j], s[j]);
        if i < j {
            assert(text_lt(s[i], s[j]));
        } else {
            assert(text_lt(s[j], s[i]));
        }
    }
}

proof fn lemma_with_missing(ids: Seq<Seq<char>>, more: Seq<Seq<char>>)
    requires
        ids.no_duplicates(),
    ensures
        with_missing(ids, more).no_duplicates(),
        forall|k: Seq<char>| #[trigger]
            with_missing(ids, more).contains(k) <==> ids.contains(k) || more.contains(k),
    decreases more.len(),
{
    if more.len() > 0 {
        let init = more.drop_last();
        lemma_with_missing(ids, init);
        let before = with_missing(ids, init);
        let after = with_missing(ids, more);
        assert forall|k: Seq<char>| #[trigger]
            after.contains(k) <==> ids.contains(k) || more.contains(k) by {
            assert(more.contains(k) <==> init.contains(k) || k == more.last()) by {
                if init.contains(k) {
                    let i = choose|i: int| 0 <= i < init.len() && init[i] == k;
                    assert(more[i] == k);
                }
                if more.contains(k) {
                    let i = choose|i: int| 0 <= i < more.len() && more[i] == k;
                    if i < init.len() {
                        assert(init[i] == k);
                    }
                }
            }
            if !before.contains(more.last()) {
                assert(after.contains(k) <==> before.contains(k) || k == more.last()) by {
                    if before.contains(k) {
                        let i = choose|i: int| 0 <= i < before.len() && before[i] == k;
                        assert(after[i] == k);
                    }
                    if k == more.last() {
                        assert(after[before.len() as int] == k);
                    }
                }
            }
        }
    }
}

proof fn lemma_rows_asked(
    rows: Map<Seq<char>, Seq<u8>>,
    ids: Seq<Seq<char>>,
    chunk: u64,
    types: Option<Seq<Seq<char>>>,
)
    ensures
        forall|row: Seq<u8>| #[trigger]
            rows_asked(rows, ids, chunk, types).contains(row) <==> exists|k: Seq<char>|
                #[trigger] ids.contains(k) && rows.contains_key(k) && rows[k] == row && edge_asked(
                    row,
                    chunk,
                    types,
                ),
    decreases ids.len(),
{
    if ids.len() > 0 {
        let init = ids.drop_last();
        let id = ids.last();
        lemma_rows_asked(rows, init, chunk, types);
        let before = rows_asked(rows, init, chunk, types);
        let after = rows_asked(rows, ids, chunk, types);
        assert forall|k: Seq<char>| #[trigger]
            ids.contains(k) <==> init.contains(k) || k == id by {
            if init.contains(k) {
                let i = choose|i: int| 0 <= i < init.len() && init[i] == k;
                assert(ids[i] == k);
            }
            if k == id {
                assert(ids[ids.len() - 1] == k);
            }
            if ids.contains(k) {
                let i = choose|i: int| 0 <= i < ids.len() && ids[i] == k;
                if i < init.len() {
                    assert(init[i] == k);
                }
            }
        }
        assert forall|row: Seq<u8>| #[trigger]
            after.contains(row) <==> exists|k: Seq<char>| #[trigger]
                ids.contains(k) && rows.contains_key(k) && rows[k] == row && edge_asked(
                    row,
                    chunk,
                    types,
                ) by {
            let kept = rows.contains_key(id) && edge_asked(rows[id], chunk, types);
            assert(after.contains(row) <==> before.contains(row) || (kept && row == rows[id])) by {
                if kept {
                    if before.contains(row) {
                        let i = choose|i: int| 0 <= i < before.len() && before[i] == row;
                        assert(after[i] == row);
                    }
                    if row == rows[id] {
                        assert(after[before.len() as int] == row);
                    }
                }
            }
            if before.contains(row) {
                let k = choose|k: Seq<char>| #[trigger]
                    init.contains(k) && rows.contains_key(k) && rows[k] == row && edge_asked(
                        row,
                        chunk,
                        types,
                    );
                assert(ids.contains(k));
            }
            if kept && row == rows[id] {
                assert(ids.contains(id));
            }
            if exists|k: Seq<char>| #[trigger]
                ids.contains(k) && rows.contains_key(k) && rows[k] == row && edge_asked(
                    row,
                    chunk,
                    types,
                ) {
                let k = choose|k: Seq<char>| #[trigger]
                    ids.contains(k) && rows.contains_key(k) && rows[k] == row && edge_asked(
                        row,
                        chunk,
                        types,
                    );
                if k != id {
                    assert(init.contains(k));
                }
            }
        }
    }
}

proof fn lemma_rows_asked_once(
    t: TablesView,
    ids: Seq<Seq<char>>,
    chunk: u64,
    types: Option<Seq<Seq<char>>>,
)
    requires
        indexed(t),
        ids.no_duplicates(),
    ensures
        rows_asked(t.rows, ids, chunk, types).no_duplicates(),
    decreases ids.len(),
{
    if ids.len() > 0 {
        let init = ids.drop_last();
        let id = ids.last();
        assert forall|i: int, j: int|
            0 <= i < init.len() && 0 <= j < init.len() && i != j implies init[i] != init[j] by {
            assert(ids[i] != ids[j]);
        }
        lemma_rows_asked_once(t, init, chunk, types);
        let before = rows_asked(t.rows, init, chunk, types);
        if t.rows.contains_key(id) && edge_asked(t.rows[id], chunk, types) {
            lemma_rows_asked(t.rows, init, chunk, types);
            if before.contains(t.rows[id]) {
                let k = choose|k: Seq<char>| #[trigger]
                    init.contains(k) && t.rows.contains_key(k) && t.rows[k] == t.rows[id]
                        && edge_asked(t.rows[id], chunk, types);
                assert(edge_of_json(t.rows[k])->0.relation_id == k);
                assert(edge_of_json(t.rows[id])->0.relation_id == id);
                let i = choose|i: int| 0 <= i < init.len() && init[i] == k;
                assert(ids[i] != ids[ids.len() - 1]);
            }
            assert(before.push(t.rows[id]).no_duplicates());
        }
    }
}

/// Reading is complete and exact: on tables whose indexes are exact, the edges
/// read for a chunk are exactly the stored edges that leave or reach it, as far
/// as that is asked for, and that are of a type asked for, each once.
pub proof fn law_reads_are_exact(
    t: TablesView,
    chunk: u64,
    dir: RelationDirection,
    types: Option<Seq<Seq<char>>>,
    out: Seq<Seq<u8>>,
    row: Seq<u8>,
)
    requires
        indexed(t),
        edges_read(t, chunk, dir, types, out),
    ensures
        out.contains(row) <==> exists|k: Seq<char>| #[trigger]
            t.rows.contains_key(k) && t.rows[k] == row && edge_of(edge_of_json(row)->0, chunk, dir)
                && type_asked(types, edge_of_json(row)->0.relation_type),
        out.no_duplicates(),
{
    let (leaving, reaching) = choose|leaving: Seq<Seq<char>>, reaching: Seq<Seq<char>>|
        #![trigger ids_to_read(dir, leaving, reaching)]
        asked_entries(t.sources, t.targets, chunk, dir, leaving, reaching) && out == rows_asked(t.rows, ids_to_read(dir, leaving, reaching), chunk, types);
    let first = if dir != RelationDirection::Incoming {
        leaving
    } else {
        Seq::empty()
    };
    if dir != RelationDirection::Incoming {
        lemma_alphabetical_once(leaving);
    }
    lemma_with_missing(first, reaching);
    let ids = ids_to_read(dir, leaving, reaching);
    lemma_rows_asked(t.rows, ids, chunk, types);
    lemma_rows_asked_once(t, ids, chunk, types);
    assert forall|k: Seq<char>| #[trigger]
        ids.contains(k) <==> t.rows.contains_key(k) && edge_of(
            edge_of_json(t.rows[k])->0,
            chunk,
            dir,
        ) by {
        if dir != RelationDirection::Incoming {
            assert(leaving.contains(k) <==> t.sources.contains((chunk, k)));
        }
        if dir != RelationDirection::Outgoing {
            assert(reaching.contains(k) <==> t.targets.contains((chunk, k)));
        }
    }
    if out.contains(row) {
        let k = choose|k: Seq<char>| #[trigger]
            ids.contains(k) && t.rows.contains_key(k) && t.rows[k] == row && edge_asked(
                row,
                chunk,
                types,
            );
        assert(t.rows.contains_key(k));
    }
    if exists|k: Seq<char>| #[trigger]
        t.rows.contains_key(k) && t.rows[k] == row && edge_of(edge_of_json(row)->0, chunk, dir)
            && type_asked(types, edge_of_json(row)->0.relation_type) {
        let k = choose|k: Seq<char>| #[trigger]
            t.rows.contains_key(k) && t.rows[k] == row && edge_of(edge_of_json(row)->0, chunk, dir)
                && type_asked(types, edge_of_json(row)->0.relation_type);
        assert(ids.contains(k));
    }
}

/// The tables after some edges were taken out, one after the other.
pub open spec fn pruned(t: TablesView, rows: Seq<Seq<u8>>) -> TablesView
    decreases rows.len(),
{
    if rows.len() == 0 {
        t
    } else {
        let before = pruned(t, rows.drop_last());
        let e = edge_of_json(rows.last())->0;
        if before.rows.contains_key(e.relation_id) {
            taken_out(before, e.relation_id, edge_of_json(before.rows[e.relation_id])->0)
        } else {
            before
        }
    }
}

/// One of the rows is the edge of this id.
pub open spec fn names_edge(rows: Seq<Seq<u8>>, id: Seq<char>) -> bool {
    exists|i: int|
        0 <= i < rows.len() && edge_of_json(#[trigger] rows[i])->0.relation_id == id
}

proof fn lemma_pruned(t: TablesView, rows: Seq<Seq<u8>>)
    requires
        indexed(t),
    ensures
        indexed(pruned(t, rows)),
        forall|k: Seq<char>| #[trigger]
            pruned(t, rows).rows.contains_key(k) <==> t.rows.contains_key(k) && !names_edge(rows, k),
        forall|k: Seq<char>|
            pruned(t, rows).rows.contains_key(k) ==> #[trigger] pruned(t, rows).rows[k]
                == t.rows[k],
    decreases rows.len(),
{
    if rows.len() > 0 {
        let init = rows.drop_last();
        lemma_pruned(t, init);
        let before = pruned(t, init);
        let after = pruned(t, rows);
        let id = edge_of_json(rows.last())->0.relation_id;
        if before.rows.contains_key(id) {
            law_removal_keeps_indexes(before, id);
        }
        assert forall|k: Seq<char>| #[trigger]
            after.rows.contains_key(k) <==> t.rows.contains_key(k) && !names_edge(rows, k) by {
            assert(names_edge(rows, k) <==> names_edge(init, k) || k == id) by {
                if names_edge(init, k) {
                    let j = choose|j: int|
                        0 <= j < init.len() && edge_of_json(#[trigger] init[j])->0.relation_id == k;
                    assert(rows[j] == init[j]);
                }
                if k == id {
                    assert(edge_of_json(rows[rows.len() - 1])->0.relation_id == k);
                }
                if names_edge(rows, k) {
                    let j = choose|j: int|
                        0 <= j < rows.len() && edge_of_json(#[trigger] rows[j])->0.relation_id == k;
                    if j < init.len() {
                        assert(init[j] == rows[j]);
                    }
                }
            }
            assert(before.rows.contains_key(k) <==> t.rows.contains_key(k)
                && !names_edge(init, k));
        }
    }
}

/// Pruning a chunk leaves no edge of it, and every other edge: on tables whose
/// indexes are exact, taking out the edges that are read for a chunk takes out
/// exactly the edges that leave or reach it, and keeps the indexes exact.
pub proof fn law_pruned_chunk_has_no_edges(
    t: TablesView,
    chunk: u64,
    out: Seq<Seq<u8>>,
    k: Seq<char>,
)
    requires
        indexed(t),
        edges_read(t, chunk, RelationDirection::Both, None, out),
    ensures
        indexed(pruned(t, out)),
        pruned(t, out).rows.contains_key(k) <==> t.rows.contains_key(k) && !edge_of(
            edge_of_json(t.rows[k])->0,
            chunk,
            RelationDirection::Both,
        ),
{
    lemma_pruned(t, out);
    assert(pruned(t, out).rows.contains_key(k) <==> t.rows.contains_key(k) && !names_edge(out, k));
    if t.rows.contains_key(k) {
        let row = t.rows[k];
        law_reads_are_exact(t, chunk, RelationDirection::Both, None, out, row);
        if edge_of(edge_of_json(row)->0, chunk, RelationDirection::Both) {
            assert(out.contains(row));
            let j = choose|j: int| 0 <= j < out.len() && out[j] == row;
            assert(edge_of_json(out[j])->0.relation_id == k);
        }
        if names_edge(out, k) {
            let j = choose|j: int|
                0 <= j < out.len() && edge_of_json(#[trigger] out[j])->0.relation_id == k;
            law_reads_are_exact(t, chunk, RelationDirection::Both, None, out, out[j]);
            assert(out.contains(out[j]));
            let q = choose|q: Seq<char>| #[trigger]
                t.rows.contains_key(q) && t.rows[q] == out[j] && edge_of(
                    edge_of_json(out[j])->0,
                    chunk,
                    RelationDirection::Both,
                ) && type_asked(None, edge_of_json(out[j])->0.relation_type);
            assert(edge_of_json(t.rows[q])->0.relation_id == q);
        }
    }
}

/// A change of the stored edges.
pub enum StoreStep {
    /// A batch of rows is put in.
    Insert(Seq<Seq<u8>>),
    /// The edge of an id is deleted.
    Delete(Seq<char>),
}

/// Tables with nothing in them.
pub open spec fn no_edges() -> TablesView {
    TablesView { rows: Map::empty(), sources: Set::empty(), targets: Set::empty() }
}

/// The tables after a change. A batch that is refused changes nothing, and neither
/// does the delete of an edge that is not there.
pub open spec fn after_step(t: TablesView, step: StoreStep) -> TablesView {
    match step {
        StoreStep::Insert(batch) => match upserted(t, batch) {
            Some(after) => after,
            None => t,
        },
        StoreStep::Delete(id) => match lookup(t.rows, id) {
            Some(row) => taken_out(t, id, edge_of_json(row)->0),
            None => t,
        },
    }
}

/// The tables after a history of changes of empty ones.
pub open spec fn after_steps(steps: Seq<StoreStep>) -> TablesView
    decreases steps.len(),
{
    if steps.len() == 0 {
        no_edges()
    } else {
        after_step(after_steps(steps.drop_last()), steps.last())
    }
}

/// Every row of a batch is an edge.
pub open spec fn all_edges(batch: Seq<Seq<u8>>) -> bool {
    forall|i: int| 0 <= i < batch.len() ==> edge_of_json(#[trigger] batch[i]) is Some
}

/// The latest row of each edge that a history put in and did not delete since.
pub open spec fn rows_stored(steps: Seq<StoreStep>) -> Map<Seq<char>, Seq<u8>>
    decreases steps.len(),
{
    if steps.len() == 0 {
        Map::empty()
    } else {
        let before = rows_stored(steps.drop_last());
        match steps.last() {
            StoreStep::Insert(batch) => if all_edges(batch) {
                rows_after(before, batch)
            } else {
                before
            },
            StoreStep::Delete(id) => before.remove(id),
        }
    }
}

proof fn lemma_history(steps: Seq<StoreStep>)
    ensures
        indexed(after_steps(steps)),
        after_steps(steps).rows == rows_stored(steps),
    decreases steps.len(),
{
    if steps.len() > 0 {
        let t = after_steps(steps.drop_last());
        lemma_history(steps.drop_last());
        match steps.last() {
            StoreStep::Insert(batch) => {
                if all_edges(batch) {
                    law_upserts_keep_indexes(t, batch);
                } else if upserted(t, batch) is Some {
                    lemma_upserted_edges(t, batch);
                }
            },
            StoreStep::Delete(id) => {
                if t.rows.contains_key(id) {
                    law_removal_keeps_indexes(t, id);
                }
                assert(after_steps(steps).rows =~= rows_stored(steps));
            },
        }
    }
}

/// The row is stored after a history, as an edge that leaves or reaches the chunk, as far
/// as that is asked for, of a type that is asked for.
pub open spec fn stored_and_asked(
    steps: Seq<StoreStep>,
    chunk: u64,
    dir: RelationDirection,
    types: Option<Seq<Seq<char>>>,
    row: Seq<u8>,
) -> bool {
    exists|k: Seq<char>| #[trigger]
        rows_stored(steps).contains_key(k) && rows_stored(steps)[k] == row && edge_of(
            edge_of_json(row)->0,
            chunk,
            dir,
        ) && type_asked(types, edge_of_json(row)->0.relation_type)
}

/// A read gives back what was written: after any history of inserts and deletes, the
/// edges read for a chunk are exactly the edges that were put in last under their ids
/// and not deleted since, as far as they leave or reach the chunk and are asked for.
/// No edge occurs twice.
pub proof fn law_reads_follow_the_history(
    steps: Seq<StoreStep>,
    chunk: u64,
    dir: RelationDirection,
    types: Option<Seq<Seq<char>>>,
    out: Seq<Seq<u8>>,
    row: Seq<u8>,
)
    requires
        edges_read(after_steps(steps), chunk, dir, types, out),
    ensures
        out.contains(row) <==> stored_and_asked(steps, chunk, dir, types, row),
        out.no_duplicates(),
{
    lemma_history(steps);
    law_reads_are_exact(after_steps(steps), chunk, dir, types, out, row);
}

/// A page gives back what was written: after any history of inserts and deletes, a
/// chunk of the page has exactly the edges that are stored for it and asked for, each
/// once. A chunk without any is not in the result, and neither is one that is not on the
/// page.
pub proof fn law_pages_follow_the_history(
    steps: Seq<StoreStep>,
    chunks: Seq<u64>,
    dir: RelationDirection,
    types: Option<Seq<Seq<char>>>,
    page: Map<u64, Seq<Vec<u8>>>,
    chunk: u64,
    row: Seq<u8>,
)
    requires
        page_of(after_steps(steps), chunks, dir, types, page),
    ensures
        page.contains_key(chunk) && byte_views(page[chunk]).contains(row) <==> chunks.contains(
            chunk,
        ) && stored_and_asked(steps, chunk, dir, types, row),
        page.contains_key(chunk) ==> byte_views(page[chunk]).no_duplicates(),
        page.contains_key(chunk) <==> chunks.contains(chunk) && exists|e: Seq<u8>|
            stored_and_asked(steps, chunk, dir, types, e),
{
    let t = after_steps(steps);
    if page.contains_key(chunk) {
        let out = byte_views(page[chunk]);
        law_reads_follow_the_history(steps, chunk, dir, types, out, row);
        law_reads_follow_the_history(steps, chunk, dir, types, out, out[0]);
        assert(out.contains(out[0]));
        assert(stored_and_asked(steps, chunk, dir, types, out[0]));
    } else if chunks.contains(chunk) {
        let i = choose|i: int| 0 <= i < chunks.len() && chunks[i] == chunk;
        assert(!page.contains_key(chunks[i]));
        assert(edges_read(t, chunk, dir, types, Seq::empty()));
        assert forall|e: Seq<u8>| !stored_and_asked(steps, chunk, dir, types, e) by {
            law_reads_follow_the_history(steps, chunk, dir, types, Seq::empty(), e);
        }
    }
}

/// An edge leaves its source and reaches its target: read outwards are those that leave the
/// chunk, inwards those that reach it, and both ways either.
pub proof fn law_edges_by_direction(e: EdgeView, chunk: u64)
    ensures
        edge_of(e, chunk, RelationDirection::Outgoing) <==> e.source_chunk_id == chunk,
        edge_of(e, chunk, RelationDirection::Incoming) <==> e.target_chunk_id == chunk,
        edge_of(e, chunk, RelationDirection::Both) <==> e.source_chunk_id == chunk
            || e.target_chunk_id == chunk,
{
}

/// Asked for are all types where none is named, and the named ones otherwise.
pub proof fn law_edges_by_type(types: Seq<Seq<char>>, t: Seq<char>)
    ensures
        type_asked(None, t),
        type_asked(Some(types), t) <==> types.contains(t),
{
}

/// An edge that is put in is stored under its id and listed at its source and its target,
/// and at no other chunk; every other row stays, with its entries.
pub proof fn law_put_edge_is_listed(
    t: TablesView,
    row: Seq<u8>,
    other: Seq<char>,
    chunk: u64,
)
    requires
        indexed(t),
        edge_of_json(row) is Some,
    ensures
        upsert(t, row) is Some,
        ({
            let e = edge_of_json(row)->0;
            let after = upsert(t, row)->0;
            &&& after.rows.contains_key(e.relation_id) && after.rows[e.relation_id] == row
            &&& after.sources.contains((chunk, e.relation_id)) <==> chunk == e.source_chunk_id
            &&& after.targets.contains((chunk, e.relation_id)) <==> chunk == e.target_chunk_id
            &&& other != e.relation_id ==> lookup(after.rows, other) == lookup(t.rows, other)
            &&& other != e.relation_id ==> (after.sources.contains((chunk, other))
                <==> t.sources.contains((chunk, other)))
            &&& other != e.relation_id ==> (after.targets.contains((chunk, other))
                <==> t.targets.contains((chunk, other)))
        }),
{
    lemma_upsert(t, row);
    let e = edge_of_json(row)->0;
    if t.rows.contains_key(e.relation_id) {
        assert(edge_of_json(t.rows[e.relation_id])->0.relation_id == e.relation_id);
    }
    assert(t.sources.contains((chunk, e.relation_id)) <==> t.rows.contains_key(e.relation_id)
        && edge_of_json(t.rows[e.relation_id])->0.source_chunk_id == chunk);
    assert(t.targets.contains((chunk, e.relation_id)) <==> t.rows.contains_key(e.relation_id)
        && edge_of_json(t.rows[e.relation_id])->0.target_chunk_id == chunk);
}

/// An edge that is taken out is stored and listed nowhere; every other row stays, with its
/// entries.
pub proof fn law_removed_edge_is_nowhere(
    t: TablesView,
    id: Seq<char>,
    other: Seq<char>,
    chunk: u64,
)
    requires
        indexed(t),
        t.rows.contains_key(id),
    ensures
        ({
            let after = taken_out(t, id, edge_of_json(t.rows[id])->0);
            &&& !after.rows.contains_key(id)
            &&& !after.sources.contains((chunk, id)) && !after.targets.contains((chunk, id))
            &&& other != id ==> lookup(after.rows, other) == lookup(t.rows, other)
            &&& other != id ==> (after.sources.contains((chunk, other)) <==> t.sources.contains(
                (chunk, other),
            ))
            &&& other != id ==> (after.targets.contains((chunk, other)) <==> t.targets.contains(
                (chunk, other),
            ))
        }),
{
    assert(t.sources.contains((chunk, id)) ==> edge_of_json(t.rows[id])->0.source_chunk_id == chunk);
    assert(t.targets.contains((chunk, id)) ==> edge_of_json(t.rows[id])->0.target_chunk_id == chunk);
}

/// The tables of a transaction are the rows by id, and the entries by source and by target.
pub proof fn law_tables_by_name(w: redb::WriteTransaction, r: redb::ReadTransaction)
    ensures
        tables(w).rows == rows_in(w, "relations"@),
        tables(w).sources == entries_in(w, "by_source_idx"@),
        tables(w).targets == entries_in(w, "by_target_idx"@),
        tables_found(w).rows == rows_found(w, "relations"@),
        tables_found(w).sources == entries_found(w, "by_source_idx"@),
        tables_found(w).targets == entries_found(w, "by_target_idx"@),
        tables_at(r).rows == rows_at(r, "relations"@),
        tables_at(r).sources == entries_at(r, "by_source_idx"@),
        tables_at(r).targets == entries_at(r, "by_target_idx"@),
{
}

/// A snapshot is what its readers read.
pub proof fn law_snapshot_is_what_is_read(rows: RowReader, sources: IndexReader, targets: IndexReader)
    ensures
        snapshot(rows, sources, targets).rows == rows_read(rows),
        snapshot(rows, sources, targets).sources == entries_read(sources),
        snapshot(rows, sources, targets).targets == entries_read(targets),
{
}

/// A batch that is stored was written by one transaction, which was committed and left what it
/// found with the batch put in; one that is refused held an edge that does not read, or met a
/// row that does not.
pub proof fn law_stored_batch_was_committed(db: redb::Database, batch: Seq<Seq<u8>>)
    ensures
        batch_stored(db, batch) ==> exists|txn: redb::WriteTransaction| #[trigger]
            began_write(txn, db) && committed(txn) && upserted(tables_found(txn), batch) == Some(
                tables(txn),
            ),
        batch_refused(db, batch) ==> exists|txn: redb::WriteTransaction| #[trigger]
            began_write(txn, db) && upserted(tables_found(txn), batch) is None,
{
    if batch_stored(db, batch) {
        let (txn, before, after) = choose|
            txn: redb::WriteTransaction,
            before: TablesView,
            after: TablesView,
        | #[trigger]
            wrote(txn, db, before, after) && upserted(before, batch) == Some(after);
        assert(began_write(txn, db));
    }
}

/// An edge that is found is the one stored under the id at some moment; where none is found,
/// none is stored there.
pub proof fn law_found_edge_was_stored(db: redb::Database, id: Seq<char>, e: EdgeView)
    ensures
        edge_seen(db, id, Some(e)) ==> exists|t: TablesView| #[trigger]
            seen(db, t) && t.rows.contains_key(id) && edge_of_json(t.rows[id]) == Some(e),
        edge_seen(db, id, None) ==> exists|t: TablesView| #[trigger]
            seen(db, t) && !t.rows.contains_key(id),
        row_unreadable(db, id) ==> exists|t: TablesView| #[trigger]
            seen(db, t) && t.rows.contains_key(id) && edge_of_json(t.rows[id]) is None,
{
    if edge_seen(db, id, Some(e)) {
        let t = choose|t: TablesView| #[trigger]
            seen(db, t) && match lookup(t.rows, id) {
                Some(row) => edge_of_json(row) is Some && Some(e) == edge_of_json(row),
                None => false,
            };
        assert(seen(db, t));
    }
    if edge_seen(db, id, None) {
        let t = choose|t: TablesView| #[trigger]
            seen(db, t) && match lookup(t.rows, id) {
                Some(row) => edge_of_json(row) is Some && None::<EdgeView> == edge_of_json(row),
                None => true,
            };
        assert(seen(db, t));
    }
}

/// A delete that reports an edge has found it and has committed its removal; one that reports
/// none has found none.
pub proof fn law_reported_delete_was_committed(db: redb::Database, id: Seq<char>)
    ensures
        edge_deleted(db, id, true) ==> exists|txn: redb::WriteTransaction, e: EdgeView|
            #![trigger began_write(txn, db), edge_seen(db, id, Some(e))]
            began_write(txn, db) && committed(txn) && edge_seen(db, id, Some(e)) && tables(txn)
                == taken_out(tables_found(txn), id, e),
        edge_deleted(db, id, false) ==> edge_seen(db, id, None),
{
    if edge_deleted(db, id, true) {
        let e = choose|e: EdgeView| #[trigger]
            edge_removed(db, id, e) && edge_seen(db, id, Some(e));
        let (txn, before, after) = choose|
            txn: redb::WriteTransaction,
            before: TablesView,
            after: TablesView,
        | #[trigger]
            wrote(txn, db, before, after) && after == taken_out(before, id, e);
        assert(began_write(txn, db) && edge_seen(db, id, Some(e)));
    }
}

/// Pruning a chunk deletes every edge that was read for it, leaving or reaching it and of
/// whatever type.
pub proof fn law_pruning_deletes_what_is_read(db: redb::Database, chunk: u64)
    requires
        chunk_pruned(db, chunk),
    ensures
        exists|rows: Seq<Seq<u8>>| #[trigger]
            edges_seen(db, chunk, RelationDirection::Both, None, rows) && (forall|i: int|
                0 <= i < rows.len() ==> edge_of_json(#[trigger] rows[i]) is Some && (edge_deleted(
                    db,
                    edge_of_json(rows[i])->0.relation_id,
                    true,
                ) || edge_deleted(db, edge_of_json(rows[i])->0.relation_id, false))),
{
    let rows = choose|rows: Seq<Seq<u8>>| #[trigger]
        edges_seen(db, chunk, RelationDirection::Both, None, rows) && all_deleted(db, rows);
    assert(edges_seen(db, chunk, RelationDirection::Both, None, rows));
}

/// A locked database is tried 6 times, 5 seconds apart.
pub proof fn law_opening_limits()
    ensures
        OPEN_MAX_ATTEMPTS == 6,
        OPEN_RETRY_BACKOFF_SECS == 5,
{
}

} // verus!
