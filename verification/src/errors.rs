//! The failures that parsing and publishing can end in.

use vstd::prelude::*;

verus! {

/// Declares `serde_json::Error` so that it can be carried in signatures: an
/// opaque value of which nothing is known.
#[verifier::external_type_specification]
#[verifier::external_body]
pub struct ExJsonError(serde_json::Error);

/// Every failure is terminal: nothing is retried.
#[derive(Debug)]
pub enum ExportError {
    /// A response body was not JSON at all.
    SerdeJSON(serde_json::Error),
    /// The position line of a record, where no range could be read from it.
    NoteRange(String),
    /// The address that was asked and the status that came back.
    InvalidResponse(String, u16),
    /// A directory listing of another shape than an array of file entries,
    /// printed.
    InvalidMetaJson(String),
}

} // verus!
