//! What a request is answered with when it cannot be served.

use redb::Error as RedbError;
use redb::{CommitError, DatabaseError, StorageError, TableError, TransactionError};
use vstd::prelude::*;
use vstd::std_specs::convert::FromSpecImpl;
use vstd::string::*;
use wasmtime::component::ResourceTableError;

verus! {

/// The errors of the key-value interface.
#[derive(Debug)]
pub enum Error {
    /// There is no store of the name asked for.
    NoSuchStore,
    /// The caller may not use the store.
    AccessDenied,
    /// Anything else, in words.
    Other(String),
}

/// Whether `error` is the one that says `text`.
pub open spec fn says(error: Error, text: Seq<char>) -> bool {
    error matches Error::Other(s) && s@ == text
}

/// Whether `error` gives the words of some failure of type `E`.
pub open spec fn words_of<E: core::fmt::Display>(error: Error) -> bool {
    error matches Error::Other(s) && exists|failure: E|
        to_string_from_display_ensures::<E>(&failure, s)
}

/// Whether the words of `failure` are those of some failure of the storage.
pub open spec fn blames_storage<E: core::fmt::Display>(failure: E) -> bool {
    forall|s: String| #[trigger]
        to_string_from_display_ensures::<E>(&failure, s) ==> words_of::<StorageError>(
            Error::Other(s),
        )
}

/// Whether `error` reports that a transaction could not be begun, or that the storage failed.
pub open spec fn reports_read(error: Error) -> bool {
    words_of::<TransactionError>(error) || words_of::<StorageError>(error)
}

/// Whether `error` reports that a transaction could not be begun or committed, or that the storage
/// failed.
pub open spec fn reports_change(error: Error) -> bool {
    reports_read(error) || words_of::<CommitError>(error)
}

/// Why a builder has no database, or could not make its table.
#[derive(Debug)]
pub enum BuilderError {
    /// No database was configured.
    NoDatabase,
    /// The database could not be opened.
    Database(DatabaseError),
    /// No write transaction could be begun.
    Transaction(TransactionError),
    /// The table could not be opened.
    Table(TableError),
    /// The table could not be committed.
    Commit(CommitError),
}

impl BuilderError {
    /// The words that the failure is displayed with.
    pub fn message(&self) -> (s: String)
        ensures
            match *self {
                BuilderError::NoDatabase => s@
                    == "no database configured; call database_path() or database()"@,
                BuilderError::Database(failure) => to_string_from_display_ensures::<DatabaseError>(
                    &failure,
                    s,
                ),
                BuilderError::Transaction(failure) => to_string_from_display_ensures::<
                    TransactionError,
                >(&failure, s),
                BuilderError::Table(failure) => to_string_from_display_ensures::<TableError>(
                    &failure,
                    s,
                ),
                BuilderError::Commit(failure) => to_string_from_display_ensures::<CommitError>(
                    &failure,
                    s,
                ),
            },
    {
        match self {
            BuilderError::NoDatabase =>
                "no database configured; call database_path() or database()".to_owned(),
            BuilderError::Database(failure) => failure.to_string(),
            BuilderError::Transaction(failure) => failure.to_string(),
            BuilderError::Table(failure) => failure.to_string(),
            BuilderError::Commit(failure) => failure.to_string(),
        }
    }
}

/// Why a change could not be begun.
pub(crate) enum BeginError {
    /// No write transaction could be begun.
    Transaction(TransactionError),
    /// The table could not be opened.
    Table(TableError),
}

impl BeginError {
    /// The error of the interface that gives the words of the failure.
    pub(crate) fn reported(self) -> (error: Error)
        ensures
            match self {
                BeginError::Transaction(_) => words_of::<TransactionError>(error),
                BeginError::Table(failure) => {
                    &&& words_of::<TableError>(error)
                    &&& blames_storage(failure) ==> words_of::<StorageError>(error)
                },
            },
    {
        match self {
            BeginError::Transaction(failure) => Error::from(failure),
            BeginError::Table(failure) => Error::from(failure),
        }
    }
}

/// Declares `redb::Error`, a failure of any kind.
#[verifier::external_type_specification]
#[verifier::external_body]
pub struct ExRedbError(RedbError);

/// Declares `redb::DatabaseError`, a failure to open a database.
#[verifier::external_type_specification]
#[verifier::external_body]
pub struct ExDatabaseError(redb::DatabaseError);

/// Declares `redb::TableError`, a failure to open a table.
#[verifier::external_type_specification]
#[verifier::external_body]
pub struct ExTableError(redb::TableError);

/// Declares `redb::StorageError`, a failure to read or write rows.
#[verifier::external_type_specification]
#[verifier::external_body]
pub struct ExStorageError(redb::StorageError);

/// Declares `redb::TransactionError`, a failure to begin a transaction.
#[verifier::external_type_specification]
#[verifier::external_body]
pub struct ExTransactionError(redb::TransactionError);

/// Declares `redb::CommitError`, a failure to commit a transaction.
#[verifier::external_type_specification]
#[verifier::external_body]
pub struct ExCommitError(redb::CommitError);

/// Declares `wasmtime::component::ResourceTableError`, a refusal of a resource table.
#[verifier::external_type_specification]
#[verifier::external_body]
pub struct ExResourceTableError(wasmtime::component::ResourceTableError);

impl From<ResourceTableError> for Error {
    /// The words that the failure is displayed with.
    fn from(err: ResourceTableError) -> (error: Error)
        ensures
            error matches Error::Other(s) && to_string_from_display_ensures::<ResourceTableError>(&err, s),
    {
        Error::Other(err.to_string())
    }
}

impl FromSpecImpl<ResourceTableError> for Error {
    open spec fn obeys_from_spec() -> bool {
        false
    }

    open spec fn from_spec(err: ResourceTableError) -> Error {
        arbitrary()
    }
}

impl From<RedbError> for Error {
    /// The words that the failure is displayed with.
    fn from(err: RedbError) -> (error: Error)
        ensures
            error matches Error::Other(s) && to_string_from_display_ensures::<RedbError>(&err, s),
    {
        Error::Other(err.to_string())
    }
}

impl FromSpecImpl<RedbError> for Error {
    open spec fn obeys_from_spec() -> bool {
        false
    }

    open spec fn from_spec(err: RedbError) -> Error {
        arbitrary()
    }
}

impl From<DatabaseError> for Error {
    /// The words that the failure is displayed with.
    fn from(err: DatabaseError) -> (error: Error)
        ensures
            error matches Error::Other(s) && to_string_from_display_ensures::<DatabaseError>(&err, s),
    {
        Error::Other(err.to_string())
    }
}

impl FromSpecImpl<DatabaseError> for Error {
    open spec fn obeys_from_spec() -> bool {
        false
    }

    open spec fn from_spec(err: DatabaseError) -> Error {
        arbitrary()
    }
}

impl From<TableError> for Error {
    /// The words that the failure is displayed with.
    fn from(err: TableError) -> (error: Error)
        ensures
            error matches Error::Other(s) && to_string_from_display_ensures::<TableError>(&err, s),
    {
        Error::Other(err.to_string())
    }
}

impl FromSpecImpl<TableError> for Error {
    open spec fn obeys_from_spec() -> bool {
        false
    }

    open spec fn from_spec(err: TableError) -> Error {
        arbitrary()
    }
}

impl From<StorageError> for Error {
    /// The words that the failure is displayed with.
    fn from(err: StorageError) -> (error: Error)
        ensures
            error matches Error::Other(s) && to_string_from_display_ensures::<StorageError>(&err, s),
    {
        Error::Other(err.to_string())
    }
}

impl FromSpecImpl<StorageError> for Error {
    open spec fn obeys_from_spec() -> bool {
        false
    }

    open spec fn from_spec(err: StorageError) -> Error {
        arbitrary()
    }
}

impl From<TransactionError> for Error {
    /// The words that the failure is displayed with.
    fn from(err: TransactionError) -> (error: Error)
        ensures
            error matches Error::Other(s) && to_string_from_display_ensures::<TransactionError>(&err, s),
    {
        Error::Other(err.to_string())
    }
}

impl FromSpecImpl<TransactionError> for Error {
    open spec fn obeys_from_spec() -> bool {
        false
    }

    open spec fn from_spec(err: TransactionError) -> Error {
        arbitrary()
    }
}

impl From<CommitError> for Error {
    /// The words that the failure is displayed with.
    fn from(err: CommitError) -> (error: Error)
        ensures
            error matches Error::Other(s) && to_string_from_display_ensures::<CommitError>(&err, s),
    {
        Error::Other(err.to_string())
    }
}

impl FromSpecImpl<CommitError> for Error {
    open spec fn obeys_from_spec() -> bool {
        false
    }

    open spec fn from_spec(err: CommitError) -> Error {
        arbitrary()
    }
}

} // verus!
