use vstd::prelude::*;

verus! {

/// What can go wrong with a chat's records.
#[derive(Debug, Clone, Copy, PartialEq, Eq, Structural)]
pub enum StoreError {
    /// A user or chat that must exist has no record.
    NotFound,
    /// Stored text is not well-formed structured data of the expected shape.
    Parse,
    /// Stored bytes do not decode as a chat's records.
    StorageCorrupt,
    /// A file system operation failed.
    Io,
}

impl StoreError {
    /// A one-line description, for diagnostics.
    pub fn message(&self) -> (r: &'static str)
        ensures
            r@ == match self {
                StoreError::NotFound => "no such record"@,
                StoreError::Parse => "input is not valid structured data of the expected shape"@,
                StoreError::StorageCorrupt => "stored bytes do not decode as records"@,
                StoreError::Io => "a file system operation failed"@,
            },
    {
        match self {
            StoreError::NotFound => "no such record",
            StoreError::Parse => "input is not valid structured data of the expected shape",
            StoreError::StorageCorrupt => "stored bytes do not decode as records",
            StoreError::Io => "a file system operation failed",
        }
    }
}

} // verus!
