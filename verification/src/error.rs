//! Error types.

use vstd::prelude::*;

verus! {

/// Errors of the comparison library.
#[derive(Debug)]
pub enum RCompareError {
    /// An input/output failure, with its message.
    Io(String),
    /// A virtual file system failure.
    Vfs(String),
    /// A path could not be handled.
    Path(String),
    /// Invalid configuration.
    Config(String),
    /// Hash cache failure.
    Cache(String),
    /// Serialization failure.
    Serialization(String),
    /// Comparison failure or cancellation.
    Comparison(String),
    /// A patch could not be parsed or a difference index was out of range.
    PatchParse(String),
}

/// Errors of virtual file system operations.
#[derive(Debug)]
pub enum VfsError {
    /// An input/output failure, with its message.
    Io(String),
    /// Path not found.
    NotFound(String),
    /// Permission denied.
    PermissionDenied(String),
    /// Not a directory.
    NotADirectory(String),
    /// Not a file.
    NotAFile(String),
    /// Unsupported operation.
    Unsupported(String),
}

} // verus!
