//! The embedded database: the calls into redb, and what they promise.
//!
//! A database holds tables of rows, by name. A read transaction is a snapshot of them. A write
//! transaction changes a draft of them, which replaces the tables of the database when it is
//! committed, and is thrown away when it is dropped. There is one write transaction at a time.
//!
//! What a database holds is spoken of as a value, which changes only where a caller lends the
//! database for change. That is so because redb locks the file against other openers, and because
//! transactions are begun on an idle database only: one on which no write transaction is in progress
//! that could be committed meanwhile. Damage that was done to the file by other means than redb is
//! left out of account.

use redb::Error as RedbError;
use redb::{CommitError, Database, DatabaseError, ReadTransaction, ReadableDatabase, ReadableTable};
use redb::{StorageError, TableDefinition, TableError, TransactionError, WriteTransaction};
use vstd::prelude::*;

use crate::error::blames_storage;
use crate::keys::{ascending, in_range};

verus! {

/// The rows of a table: the value of each key.
pub type Rows = Map<Seq<char>, Seq<u8>>;

/// Declares `redb::Database`.
#[verifier::external_type_specification]
#[verifier::external_body]
pub struct ExDatabase(redb::Database);

/// Declares `redb::WriteTransaction`.
#[verifier::external_type_specification]
#[verifier::external_body]
pub struct ExWriteTransaction(redb::WriteTransaction);

/// Declares `redb::ReadTransaction`.
#[verifier::external_type_specification]
#[verifier::external_body]
pub struct ExReadTransaction(redb::ReadTransaction);

/// Declares `std::path::PathBuf`.
#[verifier::external_type_specification]
#[verifier::external_body]
pub struct ExPathBuf(std::path::PathBuf);

/// The tables from strings to bytes that a database holds, as the last commit left them.
pub uninterp spec fn tables(db: Database) -> Map<Seq<char>, Map<Seq<char>, Seq<u8>>>;

/// The tables from strings to bytes that a read transaction sees.
pub uninterp spec fn snapshot(txn: ReadTransaction) -> Map<Seq<char>, Map<Seq<char>, Seq<u8>>>;

/// The tables from strings to bytes that a write transaction would leave if it were committed now.
pub uninterp spec fn draft(txn: WriteTransaction) -> Map<Seq<char>, Map<Seq<char>, Seq<u8>>>;

/// The names under which a database holds tables of other types, as the last commit left them.
pub uninterp spec fn foreign(db: Database) -> Set<Seq<char>>;

/// The names under which a write transaction would leave tables of other types if it were committed
/// now.
pub uninterp spec fn draft_foreign(txn: WriteTransaction) -> Set<Seq<char>>;

/// Whether no write transaction is in progress on `db`.
pub uninterp spec fn idle(db: Database) -> bool;

/// Whether `txn` is the write transaction in progress on `db`, which is as it was when `txn` began,
/// and no table of `txn` is open.
pub uninterp spec fn in_progress(txn: WriteTransaction, db: Database) -> bool;

/// Whether `txn` is in progress on some database.
pub open spec fn live(txn: WriteTransaction) -> bool {
    exists|db: Database| in_progress(txn, db)
}

/// Whether `txn` is in progress on every database that `earlier` was in progress on.
pub open spec fn same_progress(earlier: WriteTransaction, txn: WriteTransaction) -> bool {
    forall|db: Database| #[trigger] in_progress(earlier, db) ==> in_progress(txn, db)
}

/// Whether `db` was opened from the file at `path`.
pub uninterp spec fn opened_from(db: Database, path: std::path::PathBuf) -> bool;

/// Whether `db` was opened from every file that `earlier` was opened from.
pub open spec fn same_file(earlier: Database, db: Database) -> bool {
    forall|path: std::path::PathBuf| #[trigger]
        opened_from(earlier, path) ==> opened_from(db, path)
}

/// Calls `Database::create`, which opens the database file at `path`, or makes one. A database that
/// was just opened is idle. What the file holds, and whether it can be opened, is up to the machine:
/// nothing is said of that.
#[verifier::external_body]
pub(crate) fn create_database(path: &std::path::PathBuf) -> (r: Result<Database, DatabaseError>)
    ensures
        r matches Ok(db) ==> opened_from(db, *path) && idle(db),
{
    Database::create(path)
}

/// Calls `Database::begin_write`. The draft of a new write transaction is what the database holds.
/// The function waits for the write transaction in progress, if there is one, to end, so that it may
/// never return: the database must be idle. It stays so where the call fails.
#[verifier::external_body]
pub(crate) fn begin_write(db: &mut Database) -> (r: Result<WriteTransaction, TransactionError>)
    requires
        idle(*old(db)),
    ensures
        tables(*final(db)) == tables(*old(db)),
        same_file(*old(db), *final(db)),
        match r {
            Ok(txn) => {
                &&& draft(txn) == tables(*old(db))
                &&& draft_foreign(txn) == foreign(*old(db))
                &&& in_progress(txn, *final(db))
            },
            Err(_) => idle(*final(db)),
        },
{
    db.begin_write()
}

/// Calls `WriteTransaction::open_table`, which makes the table if the draft has none of that name,
/// and closes the table again. It is refused where the draft has a table of another type under that
/// name; otherwise only the storage can make the call fail. A table cannot be defined with an empty
/// name.
#[verifier::external_body]
pub(crate) fn open_table(txn: &mut WriteTransaction, table: &str) -> (r: Result<(), TableError>)
    requires
        live(*old(txn)),
        table@.len() > 0,
    ensures
        same_progress(*old(txn), *final(txn)),
        match r {
            Ok(_) => {
                &&& !draft_foreign(*old(txn)).contains(table@)
                &&& draft(*final(txn)) == if draft(*old(txn)).contains_key(table@) {
                    draft(*old(txn))
                } else {
                    draft(*old(txn)).insert(table@, Map::empty())
                }
            },
            Err(e) => {
                ||| blames_storage(e)
                ||| !draft(*old(txn)).contains_key(table@) && draft_foreign(*old(txn)).contains(
                    table@,
                )
            },
        },
{
    let definition: TableDefinition<&str, &[u8]> = TableDefinition::new(table);
    txn.open_table(definition).map(|_table| ())
}

/// Opens a table of the draft and calls `Table::get` on it. It returns the value of the key's row,
/// if there is one. Only the storage can make either call fail.
#[verifier::external_body]
pub(crate) fn draft_get(txn: &WriteTransaction, table: &str, key: &str) -> (r: Result<
    Option<Vec<u8>>,
    RedbError,
>)
    requires
        live(*txn),
        draft(*txn).contains_key(table@),
    ensures
        match r {
            Ok(Some(value)) => {
                &&& draft(*txn)[table@].contains_key(key@)
                &&& value@ == draft(*txn)[table@][key@]
            },
            Ok(None) => !draft(*txn)[table@].contains_key(key@),
            Err(e) => blames_storage(e),
        },
{
    let definition: TableDefinition<&str, &[u8]> = TableDefinition::new(table);
    let rows = txn.open_table(definition)?;
    let found = rows.get(key)?;
    Ok(found.map(|guard| guard.value().to_vec()))
}

/// Opens a table of the draft and calls `Table::insert` on it. The value takes the place of the one
/// that the key had; the other rows and tables stay as they are. Only the storage can make either
/// call fail.
#[verifier::external_body]
pub(crate) fn draft_insert(txn: &mut WriteTransaction, table: &str, key: &str, value: &[u8]) -> (r:
    Result<(), RedbError>)
    requires
        live(*old(txn)),
        draft(*old(txn)).contains_key(table@),
    ensures
        same_progress(*old(txn), *final(txn)),
        match r {
            Ok(_) => draft(*final(txn)) == draft(*old(txn)).insert(
                table@,
                draft(*old(txn))[table@].insert(key@, value@),
            ),
            Err(e) => blames_storage(e),
        },
{
    let definition: TableDefinition<&str, &[u8]> = TableDefinition::new(table);
    let mut rows = txn.open_table(definition)?;
    rows.insert(key, value)?;
    Ok(())
}

/// Opens a table of the draft and calls `Table::remove` on it. The key's row goes, if there was one;
/// the other rows and tables stay as they are. Only the storage can make either call fail.
#[verifier::external_body]
pub(crate) fn draft_remove(txn: &mut WriteTransaction, table: &str, key: &str) -> (r: Result<
    (),
    RedbError,
>)
    requires
        live(*old(txn)),
        draft(*old(txn)).contains_key(table@),
    ensures
        same_progress(*old(txn), *final(txn)),
        match r {
            Ok(_) => draft(*final(txn)) == draft(*old(txn)).insert(
                table@,
                draft(*old(txn))[table@].remove(key@),
            ),
            Err(e) => blames_storage(e),
        },
{
    let definition: TableDefinition<&str, &[u8]> = TableDefinition::new(table);
    let mut rows = txn.open_table(definition)?;
    rows.remove(key)?;
    Ok(())
}

/// Calls `WriteTransaction::commit`. The database, which the transaction must be in progress on,
/// holds the draft from then on, and is idle again. Where the commit fails, the draft has been taken
/// over whole or not at all.
#[verifier::external_body]
pub(crate) fn commit(db: &mut Database, txn: WriteTransaction) -> (r: Result<(), CommitError>)
    requires
        in_progress(txn, *old(db)),
    ensures
        idle(*final(db)),
        same_file(*old(db), *final(db)),
        match r {
            Ok(_) => tables(*final(db)) == draft(txn),
            Err(_) => tables(*final(db)) == draft(txn) || tables(*final(db)) == tables(*old(db)),
        },
{
    txn.commit()
}

/// Drops a write transaction, whose destructor throws the draft away. The database, which the
/// transaction must be in progress on, holds what it held, and is idle again.
#[verifier::external_body]
pub(crate) fn abandon(db: &mut Database, txn: WriteTransaction)
    requires
        in_progress(txn, *old(db)),
    ensures
        idle(*final(db)),
        same_file(*old(db), *final(db)),
        tables(*final(db)) == tables(*old(db)),
{
    drop(txn)
}

/// Calls `ReadableDatabase::begin_read`. The transaction sees what the database holds. The function
/// can be called while a write transaction is in progress; the database must be idle so that what it
/// holds does not change between two calls.
#[verifier::external_body]
pub(crate) fn begin_read(db: &Database) -> (r: Result<ReadTransaction, TransactionError>)
    requires
        idle(*db),
    ensures
        r matches Ok(txn) ==> snapshot(txn) == tables(*db),
{
    db.begin_read()
}

/// A table of a snapshot.
#[verifier::external_body]
pub struct ReadRows {
    table: redb::ReadOnlyTable<&'static str, &'static [u8]>,
}

/// The rows of a table of a snapshot.
pub uninterp spec fn rows_of(table: ReadRows) -> Map<Seq<char>, Seq<u8>>;

/// Calls `ReadTransaction::open_table`. It returns the table of that name that the snapshot has, and
/// fails if it has none. Where the snapshot has it, only the storage can make the call fail. A table
/// cannot be defined with an empty name.
#[verifier::external_body]
pub(crate) fn open_rows(txn: &ReadTransaction, table: &str) -> (r: Result<ReadRows, TableError>)
    requires
        table@.len() > 0,
    ensures
        match r {
            Ok(rows) => {
                &&& snapshot(*txn).contains_key(table@)
                &&& rows_of(rows) == snapshot(*txn)[table@]
            },
            Err(e) => !snapshot(*txn).contains_key(table@) || blames_storage(e),
        },
{
    let definition: TableDefinition<&str, &[u8]> = TableDefinition::new(table);
    txn.open_table(definition).map(|table| ReadRows { table })
}

/// Calls `ReadOnlyTable::get`. It returns the value of the key's row, if there is one.
#[verifier::external_body]
pub(crate) fn rows_get(rows: &ReadRows, key: &str) -> (r: Result<Option<Vec<u8>>, StorageError>)
    ensures
        r matches Ok(found) ==> match found {
            Some(value) => {
                &&& rows_of(*rows).contains_key(key@)
                &&& value@ == rows_of(*rows)[key@]
            },
            None => !rows_of(*rows).contains_key(key@),
        },
{
    let found = rows.table.get(key)?;
    Ok(found.map(|guard| guard.value().to_vec()))
}

/// A scan over the keys of a table of a snapshot.
#[verifier::external_body]
pub struct KeyScan {
    range: redb::Range<'static, &'static str, &'static [u8]>,
}

/// The keys that a scan has yet to meet, in the order in which it will meet them.
pub uninterp spec fn ahead(scan: KeyScan) -> Seq<Seq<char>>;

/// Whether a scan has met a failure.
pub uninterp spec fn broken(scan: KeyScan) -> bool;

/// Calls `ReadOnlyTable::range`. The scan will meet the keys from `low`, with it, up to `high`,
/// without it, in ascending order.
#[verifier::external_body]
pub(crate) fn scan_keys(rows: &ReadRows, low: &str, high: &str) -> (r: Result<KeyScan, StorageError>)
    ensures
        r matches Ok(scan) ==> {
            &&& !broken(scan)
            &&& ascending(ahead(scan))
            &&& forall|key: Seq<char>| #[trigger]
                ahead(scan).contains(key) <==> rows_of(*rows).contains_key(key) && in_range(
                    key,
                    low@,
                    high@,
                )
        },
{
    rows.table.range(low..high).map(|range| KeyScan { range })
}

/// Calls `Range::next`. A scan that has met a failure keeps failing. Any other returns the next key,
/// or `None` where there is none, unless it fails now.
#[verifier::external_body]
pub(crate) fn next_key(scan: &mut KeyScan) -> (r: Option<Result<String, StorageError>>)
    ensures
        broken(*old(scan)) ==> r matches Some(Err(_)),
        match r {
            Some(Ok(key)) => {
                &&& !broken(*final(scan))
                &&& ahead(*old(scan)).len() > 0
                &&& key@ == ahead(*old(scan))[0]
                &&& ahead(*final(scan)) == ahead(*old(scan)).drop_first()
            },
            Some(Err(_)) => broken(*final(scan)),
            None => {
                &&& !broken(*final(scan))
                &&& ahead(*old(scan)).len() == 0
                &&& ahead(*final(scan)).len() == 0
            },
        },
{
    let entry = scan.range.next()?;
    Some(entry.map(|(key, _value)| key.value().to_string()))
}

} // verus!
