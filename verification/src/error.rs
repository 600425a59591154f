//! What can go wrong while indexing, searching or opening files.
use vstd::prelude::*;

verus! {

/// `std::io::Error`, carried as the cause of file-system failures.
#[verifier::external_type_specification]
#[verifier::external_body]
pub struct ExIoError(std::io::Error);

/// Failures of the index. Paths are given as text.
#[derive(Debug)]
pub enum Error {
    /// The folder to index does not exist.
    FolderNotFound(String),
    /// The path to index is not a folder.
    NotADirectory(String),
    /// The file is larger than 16 MiB.
    FileTooLarge(String),
    /// The file is not valid UTF-8.
    InvalidText(String),
    /// The file's extension is not indexed.
    Unsupported(String),
    /// The file asked for is not in the index.
    NotIndexed,
    /// A path could not be resolved.
    Path { path: String, source: std::io::Error },
    /// A file could not be read.
    Io { path: String, source: std::io::Error },
    /// The database failed.
    Database(rusqlite::Error),
    /// The operating system could not open the file.
    Launch(std::io::Error),
    /// Opening files is not supported on this platform.
    UnsupportedPlatform,
    /// Meaning search failed.
    Semantic(String),
}

/// The category under which a failed file is recorded.
pub open spec fn category_of(error: Error) -> Seq<char> {
    match error {
        Error::FileTooLarge(_) => "too_large"@,
        Error::InvalidText(_) => "invalid_text"@,
        Error::Unsupported(_) => "unsupported"@,
        Error::Io { .. } => "read_failed"@,
        _ => "unknown"@,
    }
}

/// The category under which a failed file is recorded.
pub fn error_category(error: &Error) -> (r: &'static str)
    ensures
        r@ == category_of(*error),
{
    match error {
        Error::FileTooLarge(_) => "too_large",
        Error::InvalidText(_) => "invalid_text",
        Error::Unsupported(_) => "unsupported",
        Error::Io { .. } => "read_failed",
        _ => "unknown",
    }
}

} // verus!
