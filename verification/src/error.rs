//! The two error kinds the gateway distinguishes: structurally invalid
//! requests, and failures of the object store.

use vstd::prelude::*;

verus! {

/// An error surfaced to the caller of a gateway operation. Every failure is a
/// single terminal response carrying a message; nothing is retried.
#[derive(Debug)]
pub enum FileError {
    /// The caller-supplied request is structurally invalid (a multipart field
    /// without a file name, a missing path parameter).
    Input(String),
    /// The object store failed (here: the requested key is absent).
    Storage(String),
}

impl FileError {
    /// The message text carried by either kind.
    pub open spec fn message_view(self) -> Seq<char> {
        match self {
            FileError::Input(m) => m@,
            FileError::Storage(m) => m@,
        }
    }

    pub fn is_input(&self) -> (r: bool)
        ensures
            r == (self is Input),
    {
        match self {
            FileError::Input(_) => true,
            FileError::Storage(_) => false,
        }
    }

    pub fn is_storage(&self) -> (r: bool)
        ensures
            r == (self is Storage),
    {
        match self {
            FileError::Input(_) => false,
            FileError::Storage(_) => true,
        }
    }

    /// The error detail text, preserved verbatim from where the error arose.
    pub fn message(&self) -> (r: &String)
        ensures
            r@ == self.message_view(),
    {
        match self {
            FileError::Input(m) => m,
            FileError::Storage(m) => m,
        }
    }
}

} // verus!
