//! The error taxonomy of the library.
use vstd::prelude::*;

verus! {

/// Every failure the library reports, each with a human-readable message.
#[derive(Debug, Clone, PartialEq, Eq)]
pub enum Error {
    /// Filesystem failures and corrupt state files.
    Io(String),
    /// Failures of the metadata/content store.
    Database(String),
    /// Failures of the full-text index, including unparseable queries.
    SearchIndex(String),
    /// Tokenizer, runtime or dimension failures of the embedding adapter.
    Embedding(String),
    /// Failures of a per-kind content extractor.
    Extraction(String),
    /// Missing or invalid configuration.
    Config(String),
    /// A path that does not exist.
    FileNotFound(String),
    /// A rejected argument.
    InvalidInput(String),
    /// A file kind whose content cannot be extracted.
    UnsupportedFileType(String),
    /// Any other failure.
    Other(String),
}

/// Result of the library's fallible operations.
pub type Result<T> = std::result::Result<T, Error>;

} // verus!
