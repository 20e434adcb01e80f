//! Text content of files, its word count and language, and snippets of it.
use vstd::prelude::*;

use crate::chars::{chars_of, eq_str};
use crate::error::Error;
use crate::foreign::{lower_of, lowercase, string_of_chars};
use vstd::slice::slice_subrange;
use crate::indexer::walker::{extension, extension_of};
use crate::types::FileType;

verus! {

/// Text extracted from a file.
#[derive(Debug, Clone, PartialEq, Eq)]
pub struct ExtractedContent {
    pub text: String,
    pub word_count: usize,
    pub language: Option<String>,
}

/// The programming language named by a lower-case extension of a code file.
pub open spec fn language_of_extension(e: Seq<char>) -> Seq<char> {
    if e == "rs"@ {
        "rust"@
    } else if e == "py"@ {
        "python"@
    } else if e == "js"@ {
        "javascript"@
    } else if e == "ts"@ {
        "typescript"@
    } else if e == "java"@ {
        "java"@
    } else if e == "c"@ {
        "c"@
    } else if e == "cpp"@ || e == "cc"@ || e == "cxx"@ {
        "cpp"@
    } else if e == "go"@ {
        "go"@
    } else if e == "rb"@ {
        "ruby"@
    } else if e == "php"@ {
        "php"@
    } else if e == "cs"@ {
        "csharp"@
    } else if e == "swift"@ {
        "swift"@
    } else if e == "kt"@ {
        "kotlin"@
    } else if e == "scala"@ {
        "scala"@
    } else if e == "sh"@ || e == "bash"@ {
        "shell"@
    } else {
        "unknown"@
    }
}

/// The language tag of a file: only code files with an extension have one.
pub open spec fn language_of(path: Seq<char>, kind: FileType) -> Option<Seq<char>> {
    if kind != FileType::Code {
        None
    } else {
        match extension_of(path) {
            Some(e) => Some(language_of_extension(lower_of(e))),
            None => None,
        }
    }
}

/// The view of an optional string.
pub open spec fn opt_view(o: Option<String>) -> Option<Seq<char>> {
    match o {
        Some(s) => Some(s@),
        None => None,
    }
}

/// The language named by the lower-case extension `ext` of a code file.
pub fn language_for_extension(ext: &str) -> (r: String)
    ensures
        r@ == language_of_extension(ext@),
{
    let e = chars_of(ext);
    let name = if eq_str(&e, "rs") {
        "rust"
    } else if eq_str(&e, "py") {
        "python"
    } else if eq_str(&e, "js") {
        "javascript"
    } else if eq_str(&e, "ts") {
        "typescript"
    } else if eq_str(&e, "java") {
        "java"
    } else if eq_str(&e, "c") {
        "c"
    } else if eq_str(&e, "cpp") || eq_str(&e, "cc") || eq_str(&e, "cxx") {
        "cpp"
    } else if eq_str(&e, "go") {
        "go"
    } else if eq_str(&e, "rb") {
        "ruby"
    } else if eq_str(&e, "php") {
        "php"
    } else if eq_str(&e, "cs") {
        "csharp"
    } else if eq_str(&e, "swift") {
        "swift"
    } else if eq_str(&e, "kt") {
        "kotlin"
    } else if eq_str(&e, "scala") {
        "scala"
    } else if eq_str(&e, "sh") || eq_str(&e, "bash") {
        "shell"
    } else {
        "unknown"
    };
    String::from_str(name)
}

/// The language tag of the file at `path` of kind `file_type`.
pub fn detect_language(path: &str, file_type: FileType) -> (r: Option<String>)
    ensures
        opt_view(r) == language_of(path@, file_type),
{
    if file_type != FileType::Code {
        return None;
    }
    match extension(path) {
        Some(e) => {
            let lower = lowercase(e.as_str());
            Some(language_for_extension(lower.as_str()))
        },
        None => None,
    }
}

/// Whether `c` is white space in the sense of Unicode's `White_Space` property.
pub open spec fn is_space(c: char) -> bool {
    let v = c as u32;
    (0x9 <= v <= 0xd) || v == 0x20 || v == 0x85 || v == 0xa0 || v == 0x1680 || (0x2000 <= v
        <= 0x200a) || v == 0x2028 || v == 0x2029 || v == 0x202f || v == 0x205f || v == 0x3000
}

/// Whether `c` is white space in the sense of Unicode's `White_Space` property.
pub fn is_space_char(c: char) -> (r: bool)
    ensures
        r == is_space(c),
{
    let v = c as u32;
    (0x9 <= v && v <= 0xd) || v == 0x20 || v == 0x85 || v == 0xa0 || v == 0x1680 || (0x2000 <= v
        && v <= 0x200a) || v == 0x2028 || v == 0x2029 || v == 0x202f || v == 0x205f || v == 0x3000
}

/// Number of words that begin among the first `n` characters of `s`, a word
/// being a maximal run of characters that are not white space.
pub open spec fn words_in_prefix(s: Seq<char>, n: int) -> nat
    decreases n,
{
    if n <= 0 {
        0
    } else {
        words_in_prefix(s, n - 1) + if !is_space(s[n - 1]) && (n == 1 || is_space(s[n - 2])) {
            1nat
        } else {
            0nat
        }
    }
}

/// Number of whitespace-delimited words in `s`.
pub open spec fn word_count_of(s: Seq<char>) -> nat {
    words_in_prefix(s, s.len() as int)
}

proof fn lemma_words_bounded(s: Seq<char>, n: int)
    requires
        0 <= n,
    ensures
        words_in_prefix(s, n) <= n,
    decreases n,
{
    if n > 0 {
        lemma_words_bounded(s, n - 1);
    }
}

/// Number of whitespace-delimited words in `text`.
pub fn word_count(text: &str) -> (r: usize)
    ensures
        r == word_count_of(text@),
{
    let t = chars_of(text);
    let mut count: usize = 0;
    let mut i: usize = 0;
    while i < t.len()
        invariant
            i <= t@.len(),
            t@ == text@,
            count == words_in_prefix(t@, i as int),
        decreases t@.len() - i,
    {
        proof {
            lemma_words_bounded(t@, i as int);
        }
        if !is_space_char(t[i]) && (i == 0 || is_space_char(t[i - 1])) {
            count = count + 1;
        }
        i = i + 1;
    }
    count
}

/// `q` occurs in `t` at index `i`, ignoring case: the characters of `t`
/// there, lowered, are `q` lowered.
pub open spec fn ci_occurs_at(t: Seq<char>, q: Seq<char>, i: int) -> bool {
    0 <= i && i + q.len() <= t.len() && lower_of(t.subrange(i, i + q.len())) == lower_of(q)
}

/// `q` occurs somewhere in `t`, ignoring case.
pub open spec fn ci_contains(t: Seq<char>, q: Seq<char>) -> bool {
    exists|i: int| ci_occurs_at(t, q, i)
}

/// The first index from `i` on at which `q` occurs in `t`, ignoring case.
pub open spec fn ci_find_from(t: Seq<char>, q: Seq<char>, i: int) -> Option<int>
    decreases t.len() + 1 - i,
{
    if i < 0 || i + q.len() > t.len() {
        None
    } else if ci_occurs_at(t, q, i) {
        Some(i)
    } else {
        ci_find_from(t, q, i + 1)
    }
}

/// `s` with `"..."` before it when `before` holds and after it when `after` holds.
pub open spec fn with_ellipses(s: Seq<char>, before: bool, after: bool) -> Seq<char> {
    (if before {
        "..."@
    } else {
        Seq::empty()
    }) + s + (if after {
        "..."@
    } else {
        Seq::empty()
    })
}

/// The snippet of `t` for a match of length `m` at `p`: the match with up to
/// `r` characters of context on each side, and an ellipsis where text was cut.
pub open spec fn window_snippet(t: Seq<char>, p: int, m: int, r: int) -> Seq<char> {
    let start = if p > r {
        p - r
    } else {
        0
    };
    let end = if p + m + r < t.len() {
        p + m + r
    } else {
        t.len() as int
    };
    with_ellipses(t.subrange(start, end), start > 0, end < t.len())
}

/// The snippet of `t` for the query `q` with context radius `r`: a window
/// around the first match, or else the first `2r` characters.
pub open spec fn snippet_of(t: Seq<char>, q: Seq<char>, r: int) -> Seq<char> {
    snippet_given(t, ci_find_from(t, q, 0), q.len() as int, r)
}

/// The snippet of `t` given where the query of length `m` first occurs, if
/// it does: the window around it, or else the first `2r` characters.
pub open spec fn snippet_given(t: Seq<char>, found: Option<int>, m: int, r: int) -> Seq<char> {
    match found {
        Some(p) => window_snippet(t, p, m, r),
        None => if t.len() > 2 * r {
            t.subrange(0, 2 * r) + "..."@
        } else {
            t
        },
    }
}

proof fn lemma_find_from_sound(t: Seq<char>, q: Seq<char>, i: int)
    requires
        0 <= i,
    ensures
        match ci_find_from(t, q, i) {
            Some(p) => i <= p && ci_occurs_at(t, q, p),
            None => forall|j: int| i <= j ==> !ci_occurs_at(t, q, j),
        },
    decreases t.len() + 1 - i,
{
    if i + q.len() > t.len() {
    } else if !ci_occurs_at(t, q, i) {
        lemma_find_from_sound(t, q, i + 1);
        if ci_find_from(t, q, i + 1) is None {
            assert forall|j: int| i <= j implies !ci_occurs_at(t, q, j) by {
                if j > i {
                }
            }
        }
    }
}

/// The first index from `i` on at which `q` occurs in `t`, ignoring case.
fn ci_find(t: &Vec<char>, query: &str) -> (r: Option<usize>)
    ensures
        match r {
            Some(p) => ci_find_from(t@, query@, 0) == Some(p as int),
            None => ci_find_from(t@, query@, 0) is None,
        },
{
    let m = query.unicode_len();
    if m > t.len() {
        return None;
    }
    let lq = lowercase(query);
    let n = t.len();
    let last = t.len() - m;
    let mut i: usize = 0;
    while i <= last
        invariant
            n == t@.len(),
            m == query@.len(),
            lq@ == lower_of(query@),
            last == t@.len() - m,
            ci_find_from(t@, query@, 0) == ci_find_from(t@, query@, i as int),
        decreases last + 1 - i,
    {
        let window = string_of_chars(slice_subrange(t.as_slice(), i, i + m));
        let lw = lowercase(window.as_str());
        if lw.eq(&lq) {
            return Some(i);
        }
        assert(!ci_occurs_at(t@, query@, i as int));
        assert(ci_find_from(t@, query@, i as int) == ci_find_from(t@, query@, i + 1));
        if i == last {
            assert(ci_find_from(t@, query@, i + 1) is None);
            return None;
        }
        i = i + 1;
    }
    None
}

/// A snippet of `text` around the first occurrence of `query`, compared
/// after lowering both, with `context_chars` characters of context on each side;
/// without an occurrence, the first `2 * context_chars` characters.
pub fn extract_snippet(text: &str, query: &str, context_chars: usize) -> (r: Option<String>)
    ensures
        r is Some,
        r->0@ == snippet_of(text@, query@, context_chars as int),
{
    let t = chars_of(text);
    let found = ci_find(&t, query);
    proof {
        lemma_find_from_sound(t@, query@, 0);
    }
    Some(snippet_around(text, found, query.unicode_len(), context_chars))
}

/// The snippet of `text` given where a query of `query_len` characters
/// first occurs in it, if it does: the occurrence with up to
/// `context_chars` characters on each side and an ellipsis where text was
/// cut; without one, the first `2 * context_chars` characters.
pub fn snippet_around(
    text: &str,
    found: Option<usize>,
    query_len: usize,
    context_chars: usize,
) -> (r: String)
    requires
        found matches Some(p) ==> p + query_len <= text@.len(),
    ensures
        r@ == snippet_given(
            text@,
            match found {
                Some(p) => Some(p as int),
                None => None,
            },
            query_len as int,
            context_chars as int,
        ),
{
    let n = text.unicode_len();
    match found {
        Some(p) => {
            let start = if p > context_chars {
                p - context_chars
            } else {
                0
            };
            let after = n - p - query_len;
            let end = if context_chars < after {
                p + query_len + context_chars
            } else {
                n
            };
            let mut out = if start > 0 {
                String::from_str("...")
            } else {
                String::new()
            };
            out.append(text.substring_char(start, end));
            if end < n {
                out.append("...");
            }
            assert(out@ =~= window_snippet(text@, p as int, query_len as int, context_chars as int));
            out
        },
        None => {
            if context_chars <= n / 2 && n - context_chars > context_chars {
                let mut out = String::from_str(text.substring_char(0, 2 * context_chars));
                out.append("...");
                out
            } else {
                String::from_str(text)
            }
        },
    }
}

/// Ellipses added around a snippet hold no letters of the query.
proof fn lemma_occurs_shift(s: Seq<char>, pre: Seq<char>, post: Seq<char>, q: Seq<char>, i: int)
    requires
        ci_occurs_at(s, q, i),
    ensures
        ci_occurs_at(pre + s + post, q, i + pre.len()),
{
    let whole = pre + s + post;
    assert(whole.subrange(i + pre.len(), i + pre.len() + q.len()) =~= s.subrange(i, i + q.len()));
}

/// A snippet holds the query, ignoring case, whenever the text does;
/// otherwise it is the text itself, or its first `2r` characters followed by
/// an ellipsis.
pub proof fn lemma_snippet_laws(t: Seq<char>, q: Seq<char>, r: nat)
    ensures
        ci_contains(t, q) ==> ci_contains(snippet_of(t, q, r as int), q),
        !ci_contains(t, q) ==> (t.len() <= 2 * r && snippet_of(t, q, r as int) == t) || (t.len()
            > 2 * r && snippet_of(t, q, r as int) == t.subrange(0, 2 * r as int) + "..."@),
{
    lemma_find_from_sound(t, q, 0);
    match ci_find_from(t, q, 0) {
        Some(p) => {
            let m = q.len() as int;
            let start = if p > r {
                p - r
            } else {
                0
            };
            let end = if p + m + r < t.len() {
                p + m + r
            } else {
                t.len() as int
            };
            let w = t.subrange(start, end);
            assert(ci_occurs_at(w, q, p - start)) by {
                assert(w.subrange(p - start, p - start + m) =~= t.subrange(p, p + m));
            }
            let pre: Seq<char> = if start > 0 {
                "..."@
            } else {
                Seq::empty()
            };
            let post: Seq<char> = if end < t.len() {
                "..."@
            } else {
                Seq::empty()
            };
            lemma_occurs_shift(w, pre, post, q, p - start);
        },
        None => {
            if ci_contains(t, q) {
                let i = choose|i: int| ci_occurs_at(t, q, i);
                assert(!ci_occurs_at(t, q, i));
            }
        },
    }
}

/// Text of one paragraph: each run's text followed by a space.
pub open spec fn paragraph_text(runs: Seq<Seq<char>>) -> Seq<char>
    decreases runs.len(),
{
    if runs.len() == 0 {
        Seq::empty()
    } else {
        paragraph_text(runs.drop_last()) + runs.last() + " "@
    }
}

/// Text of a document: each paragraph's text followed by a line break.
pub open spec fn document_text(paras: Seq<Seq<Seq<char>>>) -> Seq<char>
    decreases paras.len(),
{
    if paras.len() == 0 {
        Seq::empty()
    } else {
        document_text(paras.drop_last()) + paragraph_text(paras.last()) + "\n"@
    }
}

/// The views of the run texts of each paragraph.
pub open spec fn paragraph_views(paras: Seq<Vec<String>>) -> Seq<Seq<Seq<char>>> {
    paras.map_values(|p: Vec<String>| p@.map_values(|r: String| r@))
}

/// Text of a word-processor document given as the run texts of its paragraphs.
pub fn docx_text(paragraphs: &Vec<Vec<String>>) -> (r: String)
    ensures
        r@ == document_text(paragraph_views(paragraphs@)),
{
    let ghost pv = paragraph_views(paragraphs@);
    let mut out = String::new();
    let mut i: usize = 0;
    while i < paragraphs.len()
        invariant
            i <= paragraphs@.len(),
            pv == paragraph_views(paragraphs@),
            out@ == document_text(pv.subrange(0, i as int)),
        decreases paragraphs@.len() - i,
    {
        let runs = &paragraphs[i];
        let ghost rv = pv[i as int];
        let ghost before = out@;
        let mut j: usize = 0;
        while j < runs.len()
            invariant
                j <= runs@.len(),
                rv == runs@.map_values(|r: String| r@),
                out@ == before + paragraph_text(rv.subrange(0, j as int)),
            decreases runs@.len() - j,
        {
            out.append(runs[j].as_str());
            out.append(" ");
            assert(rv.subrange(0, j + 1).drop_last() =~= rv.subrange(0, j as int));
            j = j + 1;
        }
        out.append("\n");
        assert(rv.subrange(0, j as int) =~= rv);
        assert(pv.subrange(0, i + 1).drop_last() =~= pv.subrange(0, i as int));
        i = i + 1;
    }
    assert(pv.subrange(0, i as int) =~= pv);
    out
}

/// Where the text of a file of some kind comes from.
#[derive(Debug, Clone, Copy, PartialEq, Eq, Structural)]
pub enum TextSource {
    /// The file is read as UTF-8 text.
    Plain,
    /// The file is a PDF document.
    Pdf,
    /// The file is a word-processor document.
    Docx,
}

/// The raw material read from a file, according to its [`TextSource`].
#[derive(Debug)]
pub enum RawContent {
    /// The file's UTF-8 text.
    Plain(String),
    /// The PDF extractor's text, or its error message.
    Pdf(std::result::Result<String, String>),
    /// The PDF extractor aborted.
    PdfAborted,
    /// The run texts of each paragraph, or the document reader's error message.
    Docx(std::result::Result<Vec<Vec<String>>, String>),
}

/// The message of the error for a kind whose text cannot be extracted.
pub open spec fn unsupported_message(kind: FileType) -> Seq<char> {
    match kind {
        FileType::Image => "Image text extraction not yet implemented (OCR planned)"@,
        FileType::Xlsx => "Excel extraction not yet implemented"@,
        _ => "Archive extraction not supported"@,
    }
}

/// Where the text of a file of kind `kind` comes from; `None` for kinds without text.
pub open spec fn source_of(kind: FileType) -> Option<TextSource> {
    match kind {
        FileType::Pdf => Some(TextSource::Pdf),
        FileType::Docx => Some(TextSource::Docx),
        FileType::Text | FileType::Code | FileType::Markdown | FileType::Unknown => Some(
            TextSource::Plain,
        ),
        _ => None,
    }
}

/// `e` is the error for a file of kind `kind`, whose text cannot be extracted.
pub open spec fn is_unsupported_error(e: Error, kind: FileType) -> bool {
    e is UnsupportedFileType && message_of(e) == unsupported_message(kind)
}

/// Where the text of a file of kind `file_type` comes from; images,
/// spreadsheets and archives are refused.
pub fn text_source(file_type: FileType) -> (r: std::result::Result<TextSource, Error>)
    ensures
        match r {
            Ok(s) => source_of(file_type) == Some(s),
            Err(e) => source_of(file_type) is None && is_unsupported_error(e, file_type),
        },
{
    match file_type {
        FileType::Pdf => Ok(TextSource::Pdf),
        FileType::Docx => Ok(TextSource::Docx),
        FileType::Text | FileType::Code | FileType::Markdown | FileType::Unknown => Ok(
            TextSource::Plain,
        ),
        FileType::Image => Err(
            Error::UnsupportedFileType(
                String::from_str("Image text extraction not yet implemented (OCR planned)"),
            ),
        ),
        FileType::Xlsx => Err(
            Error::UnsupportedFileType(String::from_str("Excel extraction not yet implemented")),
        ),
        FileType::Archive => Err(
            Error::UnsupportedFileType(String::from_str("Archive extraction not supported")),
        ),
    }
}

/// The text carried by raw material; `None` where it stands for a failure.
pub open spec fn raw_text(raw: RawContent) -> Option<Seq<char>> {
    match raw {
        RawContent::Plain(s) => Some(s@),
        RawContent::Pdf(Ok(s)) => Some(s@),
        RawContent::Docx(Ok(ps)) => Some(document_text(paragraph_views(ps@))),
        _ => None,
    }
}

/// `e` is the error that the failed raw material `raw` stands for.
pub open spec fn is_raw_error(e: Error, raw: RawContent) -> bool {
    match raw {
        RawContent::Pdf(Err(m)) => e is Extraction && message_of(e) == "PDF extraction failed: "@
            + m@,
        RawContent::PdfAborted => e is Extraction && message_of(e)
            == "PDF extraction failed (file may be corrupted or use unsupported features)"@,
        RawContent::Docx(Err(m)) => e is Other && message_of(e) == "DOCX extraction failed: "@
            + m@,
        _ => false,
    }
}

/// The message an error carries.
pub open spec fn message_of(e: Error) -> Seq<char> {
    match e {
        Error::Io(m) => m@,
        Error::Database(m) => m@,
        Error::SearchIndex(m) => m@,
        Error::Embedding(m) => m@,
        Error::Extraction(m) => m@,
        Error::Config(m) => m@,
        Error::FileNotFound(m) => m@,
        Error::InvalidInput(m) => m@,
        Error::UnsupportedFileType(m) => m@,
        Error::Other(m) => m@,
    }
}

/// The content extracted from the file at `path` of kind `file_type`, given
/// the raw material read from it: its text, word count and language tag.
pub fn extract_text(path: &str, file_type: FileType, raw: RawContent) -> (r: std::result::Result<
    ExtractedContent,
    Error,
>)
    ensures
        source_of(file_type) is None ==> r is Err && is_unsupported_error(r->Err_0, file_type),
        source_of(file_type) is Some ==> match raw_text(raw) {
            Some(t) => r is Ok && r->Ok_0.text@ == t && r->Ok_0.word_count == word_count_of(t)
                && opt_view(r->Ok_0.language) == language_of(path@, file_type),
            None => r is Err && is_raw_error(r->Err_0, raw),
        },
{
    if let Err(e) = text_source(file_type) {
        return Err(e);
    }
    let text = match raw {
        RawContent::Plain(s) => s,
        RawContent::Pdf(Ok(s)) => s,
        RawContent::Pdf(Err(e)) => {
            let mut m = String::from_str("PDF extraction failed: ");
            m.append(e.as_str());
            return Err(Error::Extraction(m));
        },
        RawContent::PdfAborted => {
            return Err(
                Error::Extraction(
                    String::from_str(
                        "PDF extraction failed (file may be corrupted or use unsupported features)",
                    ),
                ),
            );
        },
        RawContent::Docx(Ok(ps)) => docx_text(&ps),
        RawContent::Docx(Err(e)) => {
            let mut m = String::from_str("DOCX extraction failed: ");
            m.append(e.as_str());
            return Err(Error::Other(m));
        },
    };
    let word_count = word_count(text.as_str());
    let language = detect_language(path, file_type);
    Ok(ExtractedContent { text, word_count, language })
}

} // verus!
