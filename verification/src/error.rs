//! Error kinds reported by the repository.
use vstd::prelude::*;

verus! {

/// Why the store refused a statement.
#[derive(Clone, Copy, Debug, PartialEq, Eq)]
pub enum StorageFault {
    /// A station with the same token is already registered.
    Conflict,
    /// A row refers to a station or location that does not exist.
    ForeignKey,
    /// The table has handed out its last identifier.
    Exhausted,
    /// A row limit was negative.
    InvalidLimit,
    /// Rows read back from durable storage do not form a consistent store.
    Malformed,
}

/// The outcome of a repository operation that did not succeed.
#[derive(Clone, Copy, Debug, PartialEq, Eq)]
pub enum RepositoryError {
    /// No station has the given token, or no location the given id.
    NotFound,
    /// The station exists but has no reading to report.
    NoData,
    /// The store rejected the statement.
    StorageError(StorageFault),
}

impl RepositoryError {
    /// A short description of the error, for logs and responses.
    pub fn message(&self) -> (text: &'static str)
        ensures
            text@ == Self::message_of(*self)@,
    {
        match self {
            RepositoryError::NotFound => "not found",
            RepositoryError::NoData => "no data",
            RepositoryError::StorageError(StorageFault::Conflict) => "storage error: token already registered",
            RepositoryError::StorageError(StorageFault::ForeignKey) => "storage error: referenced row is missing",
            RepositoryError::StorageError(StorageFault::Exhausted) => "storage error: identifiers exhausted",
            RepositoryError::StorageError(StorageFault::InvalidLimit) => "storage error: negative row limit",
            RepositoryError::StorageError(StorageFault::Malformed) => "storage error: inconsistent rows",
        }
    }

    /// The text that [`RepositoryError::message`] returns for each error.
    pub open spec fn message_of(e: RepositoryError) -> &'static str {
        match e {
            RepositoryError::NotFound => "not found",
            RepositoryError::NoData => "no data",
            RepositoryError::StorageError(StorageFault::Conflict) => "storage error: token already registered",
            RepositoryError::StorageError(StorageFault::ForeignKey) => "storage error: referenced row is missing",
            RepositoryError::StorageError(StorageFault::Exhausted) => "storage error: identifiers exhausted",
            RepositoryError::StorageError(StorageFault::InvalidLimit) => "storage error: negative row limit",
            RepositoryError::StorageError(StorageFault::Malformed) => "storage error: inconsistent rows",
        }
    }
}

} // verus!
