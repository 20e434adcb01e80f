//! The plain data and decisions of the HTTP front end: response bodies,
//! status codes for errors, and the headers of a served file.
use vstd::prelude::*;

use crate::error::Error;
use crate::storage::IndexStats;

verus! {

/// State shared by the handlers: where the index lives.
#[derive(Debug, Clone)]
pub struct AppState {
    pub index_dir: String,
}

/// Body of the statistics endpoint.
#[derive(Debug, Clone, PartialEq, Eq)]
pub struct StatsResponse {
    pub total_files: i64,
    pub index_location: String,
    pub has_keyword_index: bool,
    pub has_semantic_index: bool,
}

/// Body of an error response.
#[derive(Debug, Clone, PartialEq, Eq)]
pub struct ErrorResponse {
    pub error: String,
}

/// Number of results a search returns when the request names none.
pub const DEFAULT_SEARCH_LIMIT: usize = 10;

/// Number of results a search returns when the request names none.
pub fn default_limit() -> (r: usize)
    ensures
        r == DEFAULT_SEARCH_LIMIT,
{
    DEFAULT_SEARCH_LIMIT
}

impl StatsResponse {
    /// The statistics body for `stats` of the index at `index_location`.
    pub fn new(
        stats: &IndexStats,
        index_location: String,
        has_keyword_index: bool,
        has_semantic_index: bool,
    ) -> (r: StatsResponse)
        ensures
            r.total_files == stats.total_files,
            r.index_location == index_location,
            r.has_keyword_index == has_keyword_index,
            r.has_semantic_index == has_semantic_index,
    {
        StatsResponse {
            total_files: stats.total_files,
            index_location,
            has_keyword_index,
            has_semantic_index,
        }
    }
}

/// The HTTP status for an error: 404 for a missing file, 400 for a rejected
/// argument or an unsupported file kind, 500 for everything else.
pub open spec fn status_of(e: Error) -> u16 {
    match e {
        Error::FileNotFound(_) => 404,
        Error::InvalidInput(_) => 400,
        Error::UnsupportedFileType(_) => 400,
        _ => 500,
    }
}

/// The HTTP status for `e`.
pub fn status_for(e: &Error) -> (r: u16)
    ensures
        r == status_of(*e),
{
    match e {
        Error::FileNotFound(_) => 404,
        Error::InvalidInput(_) => 400,
        Error::UnsupportedFileType(_) => 400,
        _ => 500,
    }
}

/// The content type a served file is sent with: its stored MIME type, or
/// `application/octet-stream` when none is stored.
pub fn content_type_for(mime_type: &Option<String>) -> (r: String)
    ensures
        r@ == match mime_type {
            Some(m) => m@,
            None => "application/octet-stream"@,
        },
{
    match mime_type {
        Some(m) => m.clone(),
        None => String::from_str("application/octet-stream"),
    }
}

/// The `Content-Disposition` value of a served file named `filename`.
pub fn content_disposition(filename: &str) -> (r: String)
    ensures
        r@ == "inline; filename=\""@ + filename@ + "\""@,
{
    let mut r = String::from_str("inline; filename=\"");
    r.append(filename);
    r.append("\"");
    r
}

} // verus!
