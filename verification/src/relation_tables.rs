//! The tables of the relation store, as the database hands them out.
//!
//! A write transaction changes its tables until it is committed; a table that a read
//! transaction has open is a snapshot that nothing changes. The names below stand for
//! what the tables hold, and for the database that a transaction was begun on; the
//! functions below are the calls into the database.
use crate::assoc::lookup;
use crate::duplicate::text_views;
use crate::errors::EngineError;
use crate::lsm::alphabetical;
use redb::ReadableTable;
use redb::ReadableTableMetadata;
use vstd::prelude::*;
use vstd::string::*;

verus! {

/// A database.
#[verifier::external_type_specification]
#[verifier::external_body]
pub struct ExDatabase(redb::Database);

/// A transaction that writes.
#[verifier::external_type_specification]
#[verifier::external_body]
pub struct ExWriteTransaction(redb::WriteTransaction);

/// A transaction that reads.
#[verifier::external_type_specification]
#[verifier::external_body]
pub struct ExReadTransaction(redb::ReadTransaction);

/// An error of the database.
#[verifier::external_type_specification]
#[verifier::external_body]
pub struct ExRedbError(redb::Error);

/// Rows by id, open in a read transaction.
#[verifier::external_body]
pub struct RowReader {
    table: redb::ReadOnlyTable<&'static str, &'static [u8]>,
}

/// Ids by chunk, open in a read transaction.
#[verifier::external_body]
pub struct IndexReader {
    table: redb::ReadOnlyMultimapTable<u64, &'static str>,
}

/// What the table of rows of a name holds in a write transaction, as it stands.
pub uninterp spec fn rows_in(txn: redb::WriteTransaction, name: Seq<char>) -> Map<
    Seq<char>,
    Seq<u8>,
>;

/// What the index of a name holds in a write transaction, as it stands: pairs of a
/// chunk and an id.
pub uninterp spec fn entries_in(txn: redb::WriteTransaction, name: Seq<char>) -> Set<
    (u64, Seq<char>),
>;

/// What the table of rows of a name held when the write transaction was begun.
pub uninterp spec fn rows_found(txn: redb::WriteTransaction, name: Seq<char>) -> Map<
    Seq<char>,
    Seq<u8>,
>;

/// What the index of a name held when the write transaction was begun.
pub uninterp spec fn entries_found(txn: redb::WriteTransaction, name: Seq<char>) -> Set<
    (u64, Seq<char>),
>;

/// The write transaction has a table of that name.
pub uninterp spec fn has_table(txn: redb::WriteTransaction, name: Seq<char>) -> bool;

/// What a snapshot of a table of rows holds.
pub uninterp spec fn rows_read(t: RowReader) -> Map<Seq<char>, Seq<u8>>;

/// What a snapshot of an index holds.
pub uninterp spec fn entries_read(t: IndexReader) -> Set<(u64, Seq<char>)>;

/// What a read transaction sees in the table of rows of a name.
pub uninterp spec fn rows_at(txn: redb::ReadTransaction, name: Seq<char>) -> Map<
    Seq<char>,
    Seq<u8>,
>;

/// What a read transaction sees in the index of a name.
pub uninterp spec fn entries_at(txn: redb::ReadTransaction, name: Seq<char>) -> Set<
    (u64, Seq<char>),
>;

/// The read transaction was begun on the database.
pub uninterp spec fn began_read(txn: redb::ReadTransaction, db: redb::Database) -> bool;

/// The write transaction was begun on the database.
pub uninterp spec fn began_write(txn: redb::WriteTransaction, db: redb::Database) -> bool;

/// The write transaction was committed.
pub uninterp spec fn committed(txn: redb::WriteTransaction) -> bool;

/// The second is the write transaction that the first is, at a later time: begun on
/// the same database, where it found the same. It loses no table.
pub open spec fn same_write(a: redb::WriteTransaction, b: redb::WriteTransaction) -> bool {
    &&& forall|db: redb::Database| #[trigger] began_write(a, db) ==> began_write(b, db)
    &&& forall|n: Seq<char>| #[trigger] rows_found(b, n) == rows_found(a, n)
    &&& forall|n: Seq<char>| #[trigger] entries_found(b, n) == entries_found(a, n)
    &&& forall|n: Seq<char>| #[trigger] has_table(a, n) ==> has_table(b, n)
}

/// The rows of a name have changed, and nothing else in the write transaction.
pub open spec fn rows_became(
    a: redb::WriteTransaction,
    b: redb::WriteTransaction,
    name: Seq<char>,
    rows: Map<Seq<char>, Seq<u8>>,
) -> bool {
    &&& same_write(a, b)
    &&& rows_in(b, name) == rows
    &&& forall|n: Seq<char>| n != name ==> #[trigger] rows_in(b, n) == rows_in(a, n)
    &&& forall|n: Seq<char>| #[trigger] entries_in(b, n) == entries_in(a, n)
}

/// The index of a name has changed, and nothing else in the write transaction.
pub open spec fn entries_became(
    a: redb::WriteTransaction,
    b: redb::WriteTransaction,
    name: Seq<char>,
    entries: Set<(u64, Seq<char>)>,
) -> bool {
    &&& same_write(a, b)
    &&& entries_in(b, name) == entries
    &&& forall|n: Seq<char>| n != name ==> #[trigger] entries_in(b, n) == entries_in(a, n)
    &&& forall|n: Seq<char>| #[trigger] rows_in(b, n) == rows_in(a, n)
}

// ── Transactions ────────────────────────────────────────────────────────

/// Begins a write transaction on the database, by `redb::Database::begin_write`. It
/// waits for one that is in progress. The tables hold what they are found with; what
/// that is rests on what was committed before, and is not claimed.
#[verifier::external_body]
pub(crate) fn begin_write(db: &redb::Database) -> (r: Result<redb::WriteTransaction, redb::Error>)
    ensures
        r matches Ok(txn) ==> began_write(txn, *db),
        r matches Ok(txn) ==> forall|n: Seq<char>| #[trigger]
            rows_in(txn, n) == rows_found(txn, n),
        r matches Ok(txn) ==> forall|n: Seq<char>| #[trigger]
            entries_in(txn, n) == entries_found(txn, n),
{
    Ok(db.begin_write()?)
}

/// Begins a read transaction on the database, by `redb::Database::begin_read`: a
/// snapshot of what was committed before. What that is, is not claimed.
#[verifier::external_body]
pub(crate) fn begin_read(db: &redb::Database) -> (r: Result<redb::ReadTransaction, redb::Error>)
    ensures
        r matches Ok(txn) ==> began_read(txn, *db),
{
    Ok(db.begin_read()?)
}

/// Makes the changes of a write transaction durable, by
/// `redb::WriteTransaction::commit`. Success says that the transaction was
/// committed, with its tables as they stand. What a later transaction finds is not
/// claimed: others may have committed before it.
#[verifier::external_body]
pub(crate) fn commit(txn: redb::WriteTransaction) -> (r: Result<(), redb::Error>)
    ensures
        r is Ok ==> committed(txn),
{
    Ok(txn.commit()?)
}

/// Opens the rows for reading, by `redb::ReadTransaction::open_table`: what the
/// transaction sees in the table of that name. A table must have a name.
#[verifier::external_body]
pub(crate) fn read_rows(txn: &redb::ReadTransaction, name: &'static str) -> (r: Result<
    RowReader,
    redb::Error,
>)
    requires
        name@.len() > 0,
    ensures
        r matches Ok(t) ==> rows_read(t) == rows_at(*txn, name@),
{
    Ok(RowReader { table: txn.open_table(redb::TableDefinition::new(name))? })
}

/// Opens an index for reading, by `redb::ReadTransaction::open_multimap_table`: what
/// the transaction sees in the index of that name. A table must have a name.
#[verifier::external_body]
pub(crate) fn read_index(txn: &redb::ReadTransaction, name: &'static str) -> (r: Result<
    IndexReader,
    redb::Error,
>)
    requires
        name@.len() > 0,
    ensures
        r matches Ok(t) ==> entries_read(t) == entries_at(*txn, name@),
{
    Ok(IndexReader { table: txn.open_multimap_table(redb::MultimapTableDefinition::new(name))? })
}

/// The error has the text that an error of the database shows.
pub open spec fn shows_database_error(e: EngineError) -> bool {
    e matches EngineError::Failed(text) && exists|x: redb::Error| #[trigger]
        to_string_from_display_ensures(&x, text)
}

/// A database error as an error of the engine, with the text that the error shows.
pub fn database_failed(e: redb::Error) -> (r: EngineError)
    ensures
        r matches EngineError::Failed(text) && to_string_from_display_ensures(&e, text),
{
    EngineError::Failed(e.to_string())
}

// ── Rows ────────────────────────────────────────────────────────────────

/// What an optional list of bytes holds.
pub open spec fn bytes_view(o: Option<Vec<u8>>) -> Option<Seq<u8>> {
    match o {
        Some(v) => Some(v@),
        None => None,
    }
}

/// Makes a table of rows if it does not exist, by
/// `redb::WriteTransaction::open_table`, which opens it. A table must have a name.
#[verifier::external_body]
pub(crate) fn make_rows(txn: &mut redb::WriteTransaction, name: &'static str) -> (r: Result<
    (),
    redb::Error,
>)
    requires
        name@.len() > 0,
    ensures
        r is Ok ==> has_table(*final(txn), name@),
        r is Ok ==> rows_became(*old(txn), *final(txn), name@, rows_in(*old(txn), name@)),
{
    txn.open_table(redb::TableDefinition::<&str, &[u8]>::new(name))?;
    Ok(())
}

/// Makes an index if it does not exist, by
/// `redb::WriteTransaction::open_multimap_table`, which opens it. A table must have a
/// name.
#[verifier::external_body]
pub(crate) fn make_index(txn: &mut redb::WriteTransaction, name: &'static str) -> (r: Result<
    (),
    redb::Error,
>)
    requires
        name@.len() > 0,
    ensures
        r is Ok ==> has_table(*final(txn), name@),
        r is Ok ==> entries_became(*old(txn), *final(txn), name@, entries_in(*old(txn), name@)),
{
    txn.open_multimap_table(redb::MultimapTableDefinition::<u64, &str>::new(name))?;
    Ok(())
}

/// The row under an id in a table of a write transaction, by `redb::Table::get`: a
/// copy of the bytes stored under the key, nothing if there are none. A table must
/// have a name.
#[verifier::external_body]
pub(crate) fn get_row(txn: &redb::WriteTransaction, name: &'static str, id: &str) -> (r: Result<
    Option<Vec<u8>>,
    redb::Error,
>)
    requires
        name@.len() > 0,
    ensures
        r matches Ok(o) ==> bytes_view(o) == lookup(rows_in(*txn, name@), id@),
{
    let table = txn.open_table(redb::TableDefinition::<&str, &[u8]>::new(name))?;
    let row = table.get(id)?.map(|v| v.value().to_vec());
    Ok(row)
}

/// Puts a row under an id into a table of a write transaction, by
/// `redb::Table::insert`, in place of the row that stood there. A table must have a
/// name.
#[verifier::external_body]
pub(crate) fn put_row(
    txn: &mut redb::WriteTransaction,
    name: &'static str,
    id: &str,
    bytes: &Vec<u8>,
) -> (r: Result<(), redb::Error>)
    requires
        name@.len() > 0,
    ensures
        r is Ok ==> rows_became(
            *old(txn),
            *final(txn),
            name@,
            rows_in(*old(txn), name@).insert(id@, bytes@),
        ),
{
    let mut table = txn.open_table(redb::TableDefinition::<&str, &[u8]>::new(name))?;
    table.insert(id, bytes.as_slice())?;
    Ok(())
}

/// Takes the row under an id out of a table of a write transaction, by
/// `redb::Table::remove`. A table must have a name.
#[verifier::external_body]
pub(crate) fn take_row(txn: &mut redb::WriteTransaction, name: &'static str, id: &str) -> (r:
    Result<(), redb::Error>)
    requires
        name@.len() > 0,
    ensures
        r is Ok ==> rows_became(
            *old(txn),
            *final(txn),
            name@,
            rows_in(*old(txn), name@).remove(id@),
        ),
{
    let mut table = txn.open_table(redb::TableDefinition::<&str, &[u8]>::new(name))?;
    table.remove(id)?;
    Ok(())
}

/// Adds an id to those of a chunk in an index of a write transaction, by
/// `redb::MultimapTable::insert`; a pair that is there already is left. A table must
/// have a name.
#[verifier::external_body]
pub(crate) fn put_entry(
    txn: &mut redb::WriteTransaction,
    name: &'static str,
    chunk: u64,
    id: &str,
) -> (r: Result<(), redb::Error>)
    requires
        name@.len() > 0,
    ensures
        r is Ok ==> entries_became(
            *old(txn),
            *final(txn),
            name@,
            entries_in(*old(txn), name@).insert((chunk, id@)),
        ),
{
    let definition = redb::MultimapTableDefinition::<u64, &str>::new(name);
    let mut table = txn.open_multimap_table(definition)?;
    table.insert(chunk, id)?;
    Ok(())
}

/// Takes an id out of those of a chunk in an index of a write transaction, by
/// `redb::MultimapTable::remove`. A table must have a name.
#[verifier::external_body]
pub(crate) fn take_entry(
    txn: &mut redb::WriteTransaction,
    name: &'static str,
    chunk: u64,
    id: &str,
) -> (r: Result<(), redb::Error>)
    requires
        name@.len() > 0,
    ensures
        r is Ok ==> entries_became(
            *old(txn),
            *final(txn),
            name@,
            entries_in(*old(txn), name@).remove((chunk, id@)),
        ),
{
    let definition = redb::MultimapTableDefinition::<u64, &str>::new(name);
    let mut table = txn.open_multimap_table(definition)?;
    table.remove(chunk, id)?;
    Ok(())
}

impl RowReader {
    /// The row under an id, by `redb::ReadOnlyTable::get`: a copy of the bytes
    /// stored under the key, nothing if there are none.
    #[verifier::external_body]
    pub(crate) fn get(&self, id: &str) -> (r: Result<Option<Vec<u8>>, redb::Error>)
        ensures
            r matches Ok(o) ==> bytes_view(o) == lookup(rows_read(*self), id@),
    {
        Ok(self.table.get(id)?.map(|v| v.value().to_vec()))
    }

    /// The number of rows, by `redb::ReadableTableMetadata::len`.
    #[verifier::external_body]
    pub(crate) fn len(&self) -> (r: Result<u64, redb::Error>)
        ensures
            r matches Ok(n) ==> n == rows_read(*self).dom().len(),
    {
        Ok(self.table.len()?)
    }
}

/// The list holds what an index has for a chunk, each id once, in dictionary
/// order.
pub open spec fn lists_entries(
    ids: Seq<Seq<char>>,
    index: Set<(u64, Seq<char>)>,
    chunk: u64,
) -> bool {
    &&& alphabetical(ids)
    &&& forall|k: Seq<char>| #[trigger] ids.contains(k) <==> index.contains((chunk, k))
}

impl IndexReader {
    /// The ids of a chunk, by `redb::ReadOnlyMultimapTable::get`: each once, in
    /// ascending order.
    #[verifier::external_body]
    pub(crate) fn ids(&self, chunk: u64) -> (r: Result<Vec<String>, redb::Error>)
        ensures
            r matches Ok(v) ==> lists_entries(text_views(v@), entries_read(*self), chunk),
    {
        let ids = self.table.get(chunk)?.map(|e| e.map(|g| g.value().to_string()));
        Ok(ids.collect::<Result<Vec<String>, redb::StorageError>>()?)
    }
}

} // verus!
