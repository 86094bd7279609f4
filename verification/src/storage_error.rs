//! Errors of the storage layer.
use crate::text::own;
use vstd::prelude::*;
use vstd::string::*;

verus! {

/// An error of the storage layer.
#[derive(Debug, Clone, PartialEq, Eq)]
pub enum StorageError {
    /// No object under the key.
    NotFound(String),
    /// An object that must not be there is there.
    AlreadyExists(String),
    /// The object changed since it was read.
    VersionConflict(String),
    /// Anything else.
    Io(String),
}

impl StorageError {
    /// An error of the last kind with the given message.
    pub open spec fn is_io(self, text: Seq<char>) -> bool {
        self matches StorageError::Io(s) && s@ == text
    }
}

/// An error with a prefix before its message.
pub fn io_error(prefix: &str, text: &str) -> (r: StorageError)
    ensures
        r.is_io(prefix@ + text@),
{
    let mut s = own(prefix);
    s.append(text);
    StorageError::Io(s)
}

} // verus!
