//! Types shared by every component: file kinds, file metadata and hits.
use vstd::prelude::*;

use crate::chars::{chars_of, eq_str};
use crate::foreign::{lower_of, lowercase};

verus! {

/// Unique identifier of a file in the index.
pub type FileId = i64;

/// Classification of a file by its extension.
#[derive(Debug, Clone, Copy, PartialEq, Eq, Structural)]
pub enum FileType {
    Text,
    Code,
    Markdown,
    Pdf,
    Docx,
    Xlsx,
    Image,
    Archive,
    Unknown,
}

/// The kind that a lower-case extension (without its dot) denotes.
pub open spec fn kind_of_extension(e: Seq<char>) -> FileType {
    if e == "txt"@ || e == "text"@ {
        FileType::Text
    } else if e == "md"@ || e == "markdown"@ {
        FileType::Markdown
    } else if e == "rs"@ || e == "py"@ || e == "js"@ || e == "ts"@ || e == "java"@ || e == "c"@
        || e == "cpp"@ || e == "go"@ || e == "rb"@ {
        FileType::Code
    } else if e == "pdf"@ {
        FileType::Pdf
    } else if e == "docx"@ || e == "doc"@ {
        FileType::Docx
    } else if e == "xlsx"@ || e == "xls"@ {
        FileType::Xlsx
    } else if e == "jpg"@ || e == "jpeg"@ || e == "png"@ || e == "gif"@ || e == "bmp"@ || e
        == "webp"@ {
        FileType::Image
    } else if e == "zip"@ || e == "tar"@ || e == "gz"@ || e == "7z"@ {
        FileType::Archive
    } else {
        FileType::Unknown
    }
}

/// The kind whose stored name is `t`, if any.
pub open spec fn kind_of_tag(t: Seq<char>) -> Option<FileType> {
    if t == "text"@ {
        Some(FileType::Text)
    } else if t == "code"@ {
        Some(FileType::Code)
    } else if t == "markdown"@ {
        Some(FileType::Markdown)
    } else if t == "pdf"@ {
        Some(FileType::Pdf)
    } else if t == "docx"@ {
        Some(FileType::Docx)
    } else if t == "xlsx"@ {
        Some(FileType::Xlsx)
    } else if t == "image"@ {
        Some(FileType::Image)
    } else if t == "archive"@ {
        Some(FileType::Archive)
    } else if t == "unknown"@ {
        Some(FileType::Unknown)
    } else {
        None
    }
}

/// Decoding the stored name of a kind gives that kind back.
pub proof fn lemma_tag_round_trip(k: FileType)
    ensures
        kind_of_tag(k.tag()) == Some(k),
{
    reveal_strlit("text");
    reveal_strlit("code");
    reveal_strlit("markdown");
    reveal_strlit("pdf");
    reveal_strlit("docx");
    reveal_strlit("xlsx");
    reveal_strlit("image");
    reveal_strlit("archive");
    reveal_strlit("unknown");
    match k {
        FileType::Text => {
            assert(k.tag() == "text"@);
            assert(kind_of_tag("text"@) == Some(FileType::Text));
        },
        FileType::Code => {
            assert("code"@[0] != "text"@[0]);
        },
        FileType::Docx => {
            assert("docx"@[0] != "text"@[0]);
            assert("docx"@[0] != "code"@[0]);
        },
        FileType::Xlsx => {
            assert("xlsx"@[0] != "text"@[0]);
            assert("xlsx"@[0] != "code"@[0]);
            assert("xlsx"@[0] != "docx"@[0]);
        },
        FileType::Unknown => {
            assert("unknown"@[0] != "archive"@[0]);
        },
        FileType::Markdown => {
            assert("markdown"@.len() != "text"@.len());
            assert("markdown"@.len() != "code"@.len());
        },
        FileType::Pdf => {
            assert("pdf"@.len() != "text"@.len());
        },
        FileType::Image => {
            assert("image"@.len() != "text"@.len());
        },
        FileType::Archive => {
            assert("archive"@.len() != "text"@.len());
        },
    }
}

impl FileType {
    /// The stored name of the kind.
    pub open spec fn tag(self) -> Seq<char> {
        match self {
            FileType::Text => "text"@,
            FileType::Code => "code"@,
            FileType::Markdown => "markdown"@,
            FileType::Pdf => "pdf"@,
            FileType::Docx => "docx"@,
            FileType::Xlsx => "xlsx"@,
            FileType::Image => "image"@,
            FileType::Archive => "archive"@,
            FileType::Unknown => "unknown"@,
        }
    }

    /// The kind of a file extension, compared without regard to case.
    pub fn from_extension(ext: &str) -> (r: FileType)
        ensures
            r == kind_of_extension(lower_of(ext@)),
    {
        let lower = lowercase(ext);
        FileType::from_lowercase_extension(lower.as_str())
    }

    /// The kind of an extension that is already in lower case.
    pub fn from_lowercase_extension(ext: &str) -> (r: FileType)
        ensures
            r == kind_of_extension(ext@),
    {
        let e = chars_of(ext);
        if eq_str(&e, "txt") || eq_str(&e, "text") {
            FileType::Text
        } else if eq_str(&e, "md") || eq_str(&e, "markdown") {
            FileType::Markdown
        } else if eq_str(&e, "rs") || eq_str(&e, "py") || eq_str(&e, "js") || eq_str(&e, "ts")
            || eq_str(&e, "java") || eq_str(&e, "c") || eq_str(&e, "cpp") || eq_str(&e, "go")
            || eq_str(&e, "rb") {
            FileType::Code
        } else if eq_str(&e, "pdf") {
            FileType::Pdf
        } else if eq_str(&e, "docx") || eq_str(&e, "doc") {
            FileType::Docx
        } else if eq_str(&e, "xlsx") || eq_str(&e, "xls") {
            FileType::Xlsx
        } else if eq_str(&e, "jpg") || eq_str(&e, "jpeg") || eq_str(&e, "png") || eq_str(&e, "gif")
            || eq_str(&e, "bmp") || eq_str(&e, "webp") {
            FileType::Image
        } else if eq_str(&e, "zip") || eq_str(&e, "tar") || eq_str(&e, "gz") || eq_str(&e, "7z") {
            FileType::Archive
        } else {
            FileType::Unknown
        }
    }

    /// The stored name of the kind.
    pub fn as_str(&self) -> (r: &'static str)
        ensures
            r@ == self.tag(),
    {
        match self {
            FileType::Text => "text",
            FileType::Code => "code",
            FileType::Markdown => "markdown",
            FileType::Pdf => "pdf",
            FileType::Docx => "docx",
            FileType::Xlsx => "xlsx",
            FileType::Image => "image",
            FileType::Archive => "archive",
            FileType::Unknown => "unknown",
        }
    }

    /// The kind whose stored name is `tag`, if any.
    pub fn from_tag(tag: &str) -> (r: Option<FileType>)
        ensures
            r == kind_of_tag(tag@),
    {
        let t = chars_of(tag);
        if eq_str(&t, "text") {
            Some(FileType::Text)
        } else if eq_str(&t, "code") {
            Some(FileType::Code)
        } else if eq_str(&t, "markdown") {
            Some(FileType::Markdown)
        } else if eq_str(&t, "pdf") {
            Some(FileType::Pdf)
        } else if eq_str(&t, "docx") {
            Some(FileType::Docx)
        } else if eq_str(&t, "xlsx") {
            Some(FileType::Xlsx)
        } else if eq_str(&t, "image") {
            Some(FileType::Image)
        } else if eq_str(&t, "archive") {
            Some(FileType::Archive)
        } else if eq_str(&t, "unknown") {
            Some(FileType::Unknown)
        } else {
            None
        }
    }
}

/// Metadata about an indexed file.
#[derive(Debug, Clone, PartialEq, Eq)]
pub struct FileMetadata {
    pub id: FileId,
    pub path: String,
    pub filename: String,
    pub file_type: FileType,
    pub mime_type: Option<String>,
    pub size: u64,
    pub hash: String,
    pub created_at: i64,
    pub modified_at: i64,
    pub indexed_at: i64,
}

impl FileMetadata {
    /// A copy of the record with every field equal.
    pub fn duplicate(&self) -> (r: FileMetadata)
        ensures
            r == *self,
    {
        let mime_type = match &self.mime_type {
            Some(m) => Some(m.clone()),
            None => None,
        };
        FileMetadata {
            id: self.id,
            path: self.path.clone(),
            filename: self.filename.clone(),
            file_type: self.file_type,
            mime_type,
            size: self.size,
            hash: self.hash.clone(),
            created_at: self.created_at,
            modified_at: self.modified_at,
            indexed_at: self.indexed_at,
        }
    }
}

/// A ranked hit, with the score type of the ranking that produced it.
#[derive(Debug, Clone, PartialEq)]
pub struct SearchResult<S> {
    pub file_id: FileId,
    pub path: String,
    pub filename: String,
    pub score: S,
    pub snippet: Option<String>,
}

} // verus!
