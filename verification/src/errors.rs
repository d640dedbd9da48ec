use vstd::prelude::*;

verus! {

/// The failures this layer reports to its callers. None of them is retried
/// here; retry policy, if any, belongs to the caller.
#[derive(Debug, Clone, Copy, PartialEq, Eq, Structural)]
pub enum KvError {
    /// An operation ran before any storage location was configured.
    StorageNotConfigured,
    /// A reset was requested on a location that does not exist.
    PathNotFound,
    /// Stored bytes did not decode as a record.
    CorruptRecord,
    /// The underlying engine reported an I/O or internal error.
    StorageFailure,
    /// A batch of writes could not be applied as one atomic unit.
    TransactionAborted,
}

impl KvError {
    /// A short description, for callers that print failures.
    pub fn message(&self) -> (m: &'static str)
        ensures
            m@.len() > 0,
    {
        let m = match self {
            KvError::StorageNotConfigured => "no storage location has been configured",
            KvError::PathNotFound => "the requested path does not exist",
            KvError::CorruptRecord => "stored bytes did not decode as a record",
            KvError::StorageFailure => "the storage engine reported a failure",
            KvError::TransactionAborted => "the transaction could not be applied atomically",
        };
        proof {
            reveal_strlit("no storage location has been configured");
            reveal_strlit("the requested path does not exist");
            reveal_strlit("stored bytes did not decode as a record");
            reveal_strlit("the storage engine reported a failure");
            reveal_strlit("the transaction could not be applied atomically");
        }
        m
    }
}

} // verus!
