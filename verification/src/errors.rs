//! Task-scoped failure taxonomy of the download pipeline. Every error
//! is fatal to its own task only and is never retried.

use vstd::prelude::*;

verus! {

/// Why one task's pipeline failed.
#[derive(Clone, Copy, PartialEq, Eq, Structural, Debug)]
pub enum DownloadError {
    /// HTTP or transport failure, or a non-success response status.
    FetchError,
    /// The page body holds no direct-link pattern.
    NoLinkFound,
    /// The response carries no usable filename parameter.
    MissingFilename,
    /// The body stream failed mid-transfer.
    ChunkReadError,
    /// Appending a chunk to local storage failed.
    WriteError,
    /// The destination file could not be created.
    FileOpenError,
    /// The URL-list file could not be read.
    InputFileError,
}

} // verus!
