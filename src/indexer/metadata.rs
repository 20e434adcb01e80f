//! The metadata record of a file: name, kind, MIME type, size, content hash
//! and timestamps.
use vstd::prelude::*;

use crate::chars::{chars_of, seq_eq};
use crate::extractors::text::opt_view;
use crate::foreign::{guess_mime, mime_of_path, sha256_hex, sha256_hex_of};
use crate::indexer::walker::file_name_of;
use crate::types::{FileMetadata, FileType};

verus! {

/// The name a record gets for the file at `p`: its last component, or
/// `"unknown"` where the path ends without one.
pub open spec fn filename_of(p: Seq<char>) -> Seq<char> {
    let n = file_name_of(p);
    if n.len() == 0 || n == ".."@ {
        "unknown"@
    } else {
        n
    }
}

/// The name a record gets for the file at `path`.
pub fn file_name(path: &str) -> (r: String)
    ensures
        r@ == filename_of(path@),
{
    let p = chars_of(path);
    let slash = crate::indexer::walker::last_slash(&p);
    let name = path.substring_char(slash, p.len());
    let n = chars_of(name);
    if n.len() == 0 || crate::chars::eq_str(&n, "..") {
        String::from_str("unknown")
    } else {
        String::from_str(name)
    }
}

/// The SHA-256 digest of `contents`, as 64 lower-case hex digits.
pub fn compute_file_hash(contents: &[u8]) -> (r: String)
    ensures
        r@ == sha256_hex_of(contents@),
        r@.len() == 64,
{
    sha256_hex(contents)
}

/// Whether a file whose bytes are `contents` differs from the version
/// whose hash was stored as `stored_hash`.
pub fn is_modified(contents: &[u8], stored_hash: &str) -> (r: bool)
    ensures
        r == (sha256_hex_of(contents@) != stored_hash@),
{
    let current = compute_file_hash(contents);
    let a = chars_of(current.as_str());
    let b = chars_of(stored_hash);
    !seq_eq(&a, &b)
}

/// The metadata record of the file at `path` of kind `file_type`, whose
/// bytes are `contents`, with the filesystem's creation and modification
/// times where known and `now` as the time of indexing; a missing creation
/// time falls back to the modification time, then to `now`. The identifier
/// is left 0 for the store to assign.
pub fn extract_metadata(
    path: &str,
    file_type: FileType,
    contents: &[u8],
    created: Option<i64>,
    modified: Option<i64>,
    now: i64,
) -> (r: FileMetadata)
    ensures
        r.id == 0,
        r.path@ == path@,
        r.filename@ == filename_of(path@),
        r.file_type == file_type,
        opt_view(r.mime_type) == mime_of_path(path@),
        r.size == contents@.len(),
        r.hash@ == sha256_hex_of(contents@),
        r.hash@.len() == 64,
        r.created_at == match created {
            Some(c) => c,
            None => match modified {
                Some(m) => m,
                None => now,
            },
        },
        r.modified_at == match modified {
            Some(m) => m,
            None => now,
        },
        r.indexed_at == now,
{
    let created_at = match created {
        Some(c) => c,
        None => match modified {
            Some(m) => m,
            None => now,
        },
    };
    let modified_at = match modified {
        Some(m) => m,
        None => now,
    };
    FileMetadata {
        id: 0,
        path: String::from_str(path),
        filename: file_name(path),
        file_type,
        mime_type: guess_mime(path),
        size: contents.len() as u64,
        hash: compute_file_hash(contents),
        created_at,
        modified_at,
        indexed_at: now,
    }
}

} // verus!
