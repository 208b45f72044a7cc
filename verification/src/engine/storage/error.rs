//! Storage errors.

use vstd::prelude::*;

use crate::text::concat2;

verus! {

#[derive(Debug, Clone, PartialEq, Eq)]
#[non_exhaustive]
pub enum StorageError {
    NotFound { key: String },
    AlreadyExists { key: String },
    PermissionDenied { key: String },
    VersionMismatch { key: String },
    /// What the backend said.
    Backend(String),
}

impl StorageError {
    pub open spec fn text(self) -> Seq<char> {
        match self {
            StorageError::NotFound { key } => "storage key not found: "@ + key@,
            StorageError::AlreadyExists { key } => "storage key already exists: "@ + key@,
            StorageError::PermissionDenied { key } => "storage permission denied: "@ + key@,
            StorageError::VersionMismatch { key } => "storage version mismatch on "@ + key@,
            StorageError::Backend(e) => "storage backend: "@ + e@,
        }
    }

    /// Wraps the message of a backend failure.
    pub fn backend(err: String) -> (e: StorageError)
        ensures
            e == StorageError::Backend(err),
    {
        StorageError::Backend(err)
    }

    /// The message shown for this error.
    pub fn message(&self) -> (m: String)
        ensures
            m@ == self.text(),
    {
        match self {
            StorageError::NotFound { key } => concat2("storage key not found: ", key.as_str()),
            StorageError::AlreadyExists { key } => concat2(
                "storage key already exists: ",
                key.as_str(),
            ),
            StorageError::PermissionDenied { key } => concat2(
                "storage permission denied: ",
                key.as_str(),
            ),
            StorageError::VersionMismatch { key } => concat2(
                "storage version mismatch on ",
                key.as_str(),
            ),
            StorageError::Backend(e) => concat2("storage backend: ", e.as_str()),
        }
    }
}

// ---- Laws --------------------------------------------------------------------

/// The message of an error tells what failed and ends in the key or the cause.
pub proof fn law_storage_errors_name_the_key(e: &StorageError, m: String)
    requires
        call_ensures(StorageError::message, (e,), m),
    ensures
        e matches StorageError::NotFound { key } ==> m@ == "storage key not found: "@ + key@,
        e matches StorageError::AlreadyExists { key } ==> m@ == "storage key already exists: "@
            + key@,
        e matches StorageError::PermissionDenied { key } ==> m@ == "storage permission denied: "@
            + key@,
        e matches StorageError::VersionMismatch { key } ==> m@ == "storage version mismatch on "@
            + key@,
        e matches StorageError::Backend(c) ==> m@ == "storage backend: "@ + c@,
{
}

} // verus!
