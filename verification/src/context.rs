//! The database behind the host, and how it is configured.

use crate::error::{blames_storage, reports_read, words_of, BeginError, BuilderError, Error};
use crate::storage::{abandon, begin_read, begin_write, commit, create_database, open_rows, open_table};
use crate::storage::{draft, foreign, idle, in_progress, opened_from, rows_of, same_file, tables};
use crate::storage::{ReadRows, Rows};
use redb::{CommitError, Database, DatabaseError, WriteTransaction};
use vstd::prelude::*;

verus! {

/// The table in which all buckets are kept.
pub const TABLE: &'static str = "wasi_kv";

/// The rows of all buckets in a database that holds `tables`.
pub open spec fn kept_rows(tables: Map<Seq<char>, Rows>) -> Rows {
    if tables.contains_key(TABLE@) {
        tables[TABLE@]
    } else {
        Map::empty()
    }
}

/// Holds the database.
pub struct WasiKeyValueRedbCtx {
    pub(crate) db: Database,
}

impl WasiKeyValueRedbCtx {
    /// The database.
    pub open(crate) spec fn database(self) -> Database {
        self.db
    }

    /// The rows of all buckets.
    pub open(crate) spec fn rows(self) -> Rows {
        kept_rows(tables(self.db))
    }

    /// The tables that the database holds beside the rows of all buckets.
    pub open(crate) spec fn other_tables(self) -> Map<Seq<char>, Rows> {
        tables(self.db).remove(TABLE@)
    }

    /// Whether the table in which all buckets are kept has been made.
    pub open(crate) spec fn has_table(self) -> bool {
        tables(self.db).contains_key(TABLE@)
    }

    /// Whether no write transaction is in progress on the database.
    pub open(crate) spec fn is_idle(self) -> bool {
        idle(self.db)
    }

    /// Whether the database was opened from the file at `path`.
    pub open(crate) spec fn kept_in(self, path: std::path::PathBuf) -> bool {
        opened_from(self.db, path)
    }

    /// What holds of every context that was built, between requests.
    pub open spec fn well_formed(self) -> bool {
        &&& self.is_idle()
        &&& self.has_table()
    }

    /// Whether nothing but the rows of buckets has changed since the context was as `before`.
    pub open spec fn continues(self, before: WasiKeyValueRedbCtx) -> bool {
        &&& self.well_formed()
        &&& self.other_tables() == before.other_tables()
        &&& forall|path: std::path::PathBuf| #[trigger]
            before.kept_in(path) ==> self.kept_in(path)
    }
}

/// Begins a read of the rows of all buckets.
pub(crate) fn begin_lookup(db: &Database) -> (r: Result<ReadRows, Error>)
    requires
        idle(*db),
        tables(*db).contains_key(TABLE@),
    ensures
        match r {
            Ok(rows) => rows_of(rows) == kept_rows(tables(*db)),
            Err(e) => reports_read(e),
        },
{
    let txn = match begin_read(db) {
        Ok(txn) => txn,
        Err(e) => {
            return Err(Error::from(e));
        },
    };
    proof {
        reveal_strlit("wasi_kv");
    }
    match open_rows(&txn, TABLE) {
        Ok(rows) => Ok(rows),
        Err(e) => Err(Error::from(e)),
    }
}

/// Begins a change of the rows of all buckets.
pub(crate) fn begin_update(db: &mut Database) -> (r: Result<WriteTransaction, BeginError>)
    requires
        idle(*old(db)),
    ensures
        tables(*final(db)) == tables(*old(db)),
        same_file(*old(db), *final(db)),
        match r {
            Ok(txn) => {
                &&& in_progress(txn, *final(db))
                &&& !foreign(*old(db)).contains(TABLE@)
                &&& draft(txn).contains_key(TABLE@)
                &&& draft(txn)[TABLE@] == kept_rows(tables(*old(db)))
                &&& draft(txn).remove(TABLE@) == tables(*old(db)).remove(TABLE@)
            },
            Err(e) => {
                &&& idle(*final(db))
                &&& e matches BeginError::Table(failure) ==> {
                    ||| blames_storage(failure)
                    ||| !tables(*old(db)).contains_key(TABLE@) && foreign(*old(db)).contains(TABLE@)
                }
            },
        },
{
    let mut txn = match begin_write(db) {
        Ok(txn) => txn,
        Err(e) => {
            return Err(BeginError::Transaction(e));
        },
    };
    proof {
        reveal_strlit("wasi_kv");
    }
    match open_table(&mut txn, TABLE) {
        Ok(_) => Ok(txn),
        Err(e) => {
            abandon(db, txn);
            Err(BeginError::Table(e))
        },
    }
}

/// Makes a change of the rows of all buckets last.
pub(crate) fn finish_update(db: &mut Database, txn: WriteTransaction) -> (r: Result<(), Error>)
    requires
        in_progress(txn, *old(db)),
    ensures
        idle(*final(db)),
        same_file(*old(db), *final(db)),
        match r {
            Ok(_) => tables(*final(db)) == draft(txn),
            Err(e) => {
                &&& words_of::<CommitError>(e)
                &&& tables(*final(db)) == draft(txn) || tables(*final(db)) == tables(*old(db))
            },
        },
{
    match commit(db, txn) {
        Ok(_) => Ok(()),
        Err(e) => Err(Error::from(e)),
    }
}

/// Builder for [`WasiKeyValueRedbCtx`].
pub struct WasiKeyValueRedbCtxBuilder {
    db: Option<Database>,
}

impl Default for WasiKeyValueRedbCtxBuilder {
    /// A builder with no database.
    fn default() -> (builder: Self)
        ensures
            builder.configured() is None,
    {
        WasiKeyValueRedbCtxBuilder { db: None }
    }
}

impl WasiKeyValueRedbCtxBuilder {
    /// The database that was configured last, if any was.
    pub closed spec fn configured(self) -> Option<Database> {
        self.db
    }

    /// A builder with no database.
    pub fn new() -> (builder: Self)
        ensures
            builder.configured() is None,
    {
        WasiKeyValueRedbCtxBuilder::default()
    }

    /// Opens the database file at `path`, or makes one, and uses it.
    pub fn database_path(self, path: &std::path::PathBuf) -> (r: Result<Self, BuilderError>)
        ensures
            match r {
                Ok(builder) => builder.configured() matches Some(db) && opened_from(db, *path)
                    && idle(db),
                Err(e) => e is Database,
            },
    {
        let opened = create_database(path);
        self.opened_database(opened)
    }

    /// Uses the database of an attempt to open one, or passes on the failure.
    pub fn opened_database(self, opened: Result<Database, DatabaseError>) -> (r: Result<
        Self,
        BuilderError,
    >)
        ensures
            match opened {
                Ok(db) => r matches Ok(builder) && builder.configured() == Some(db),
                Err(failure) => r == Err::<Self, BuilderError>(BuilderError::Database(failure)),
            },
    {
        match opened {
            Ok(db) => Ok(self.database(db)),
            Err(failure) => Err(BuilderError::Database(failure)),
        }
    }

    /// Uses a database that is already open.
    pub fn database(self, db: Database) -> (builder: Self)
        ensures
            builder.configured() == Some(db),
    {
        let mut builder = self;
        builder.db = Some(db);
        builder
    }

    /// Makes the table in which all buckets are kept, unless the database has it. A database that
    /// has a table of another type under that name is refused; any other failure is the storage's.
    /// The database must be idle: a write transaction in progress on it would be waited for.
    pub fn build(self) -> (r: Result<WasiKeyValueRedbCtx, BuilderError>)
        requires
            self.configured() matches Some(db) ==> idle(db),
        ensures
            self.configured() is None ==> r matches Err(BuilderError::NoDatabase),
            self.configured() matches Some(db) ==> match r {
                Ok(ctx) => {
                    &&& !foreign(db).contains(TABLE@)
                    &&& ctx.well_formed()
                    &&& ctx.rows() == kept_rows(tables(db))
                    &&& ctx.other_tables() == tables(db).remove(TABLE@)
                    &&& forall|path: std::path::PathBuf| #[trigger]
                        opened_from(db, path) ==> ctx.kept_in(path)
                },
                Err(e) => {
                    &&& e is Transaction || e is Table || e is Commit
                    &&& e matches BuilderError::Table(failure) ==> {
                        ||| blames_storage(failure)
                        ||| !tables(db).contains_key(TABLE@) && foreign(db).contains(TABLE@)
                    }
                },
            },
    {
        let mut db = match self.db {
            Some(db) => db,
            None => {
                return Err(BuilderError::NoDatabase);
            },
        };
        let txn = match begin_update(&mut db) {
            Ok(txn) => txn,
            Err(BeginError::Transaction(e)) => {
                return Err(BuilderError::Transaction(e));
            },
            Err(BeginError::Table(e)) => {
                return Err(BuilderError::Table(e));
            },
        };
        match commit(&mut db, txn) {
            Ok(_) => Ok(WasiKeyValueRedbCtx { db }),
            Err(e) => Err(BuilderError::Commit(e)),
        }
    }
}

} // verus!
