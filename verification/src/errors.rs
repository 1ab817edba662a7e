use vstd::prelude::*;

verus! {

/// Everything that can go wrong in the store and around it.
///
/// `StorageUnavailable` and `SchemaError` are fatal at startup: there is no
/// degraded mode without a database.  `QueryFailed` and `WriteFailed` are
/// per-action failures that the caller reports and survives.  `InvalidInput`
/// is local validation of a submitted name and is never fatal.
#[derive(Clone, Copy, Debug, PartialEq, Eq, Structural)]
pub enum StoreError {
    /// The database file could not be opened or created.
    StorageUnavailable,
    /// The `todo` table could not be created or a loaded snapshot does not
    /// match the fixed schema.
    SchemaError,
    /// A full scan failed; in this model, the scan ran before the schema was
    /// ensured.
    QueryFailed,
    /// An insert or delete failed; in this model, the write ran before the
    /// schema was ensured, or the id space is exhausted.
    WriteFailed,
    /// The submitted name is empty or holds only whitespace.
    InvalidInput,
}

} // verus!
