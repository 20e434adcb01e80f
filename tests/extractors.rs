use khoj::extractors::text::{
    detect_language, docx_text, extract_snippet, extract_text, snippet_around, text_source,
    word_count,
    RawContent, TextSource,
};
use khoj::types::FileType;
use khoj::Error;

fn plain(path: &str, kind: FileType, content: &str) -> khoj::extractors::ExtractedContent {
    extract_text(path, kind, RawContent::Plain(content.to_string())).unwrap()
}

#[test]
fn test_extract_text_from_txt_file() {
    let content = "Hello world!\nThis is a test file.\n";
    let extracted = plain("/tmp/test.txt", FileType::Text, content);
    assert_eq!(extracted.text, content);
    assert_eq!(extracted.word_count, 7);
    assert_eq!(extracted.language, None);
}

#[test]
fn test_extract_text_from_markdown() {
    let content = "# Title\n\nThis is **bold** text.\n";
    let extracted = plain("/tmp/test.md", FileType::Markdown, content);
    assert_eq!(extracted.text, content);
    assert!(extracted.word_count > 0);
    assert_eq!(extracted.language, None);
}

#[test]
fn test_extract_text_from_code() {
    let content = "fn main() {\n    println!(\"Hello, world!\");\n}\n";
    let extracted = plain("/tmp/test.rs", FileType::Code, content);
    assert_eq!(extracted.text, content);
    assert!(extracted.word_count > 0);
    assert_eq!(extracted.language, Some("rust".to_string()));
}

#[test]
fn test_detect_language() {
    let test_cases = vec![
        ("test.rs", FileType::Code, Some("rust")),
        ("test.py", FileType::Code, Some("python")),
        ("test.js", FileType::Code, Some("javascript")),
        ("test.ts", FileType::Code, Some("typescript")),
        ("test.java", FileType::Code, Some("java")),
        ("test.go", FileType::Code, Some("go")),
        ("test.cpp", FileType::Code, Some("cpp")),
        ("test.txt", FileType::Text, None),
    ];
    for (filename, file_type, expected) in test_cases {
        let lang = detect_language(filename, file_type);
        assert_eq!(lang.as_deref(), expected, "Failed for {}", filename);
    }
}

#[test]
fn detect_language_covers_the_table() {
    let cases = [
        ("a.cc", "cpp"),
        ("a.CXX", "cpp"),
        ("a.rb", "ruby"),
        ("a.php", "php"),
        ("a.cs", "csharp"),
        ("a.swift", "swift"),
        ("a.kt", "kotlin"),
        ("a.scala", "scala"),
        ("a.sh", "shell"),
        ("a.bash", "shell"),
        ("a.c", "c"),
        ("a.zig", "unknown"),
    ];
    for (path, lang) in cases {
        assert_eq!(detect_language(path, FileType::Code), Some(lang.to_string()), "{}", path);
    }
    assert_eq!(detect_language("Makefile", FileType::Code), None);
}

#[test]
fn test_extract_snippet_with_match() {
    let text = "This is a test file with some content. We want to find the word test.";
    let snippet = extract_snippet(text, "test", 20).unwrap();
    assert!(snippet.contains("test"));
    assert!(snippet.len() <= text.len());
}

#[test]
fn test_extract_snippet_no_match() {
    let text = "This is some content without the search term.";
    let snippet = extract_snippet(text, "nonexistent", 20).unwrap();
    assert!(snippet.starts_with("This is"));
}

#[test]
fn test_extract_snippet_short_text() {
    let text = "Short text";
    let snippet = extract_snippet(text, "query", 50).unwrap();
    assert_eq!(snippet, text);
}

#[test]
fn snippet_window_and_ellipses() {
    let text = "0123456789 Needle 0123456789";
    assert_eq!(extract_snippet(text, "needle", 3).unwrap(), "...89 Needle 01...");
    assert_eq!(extract_snippet(text, "NEEDLE", 100).unwrap(), text);
    assert_eq!(extract_snippet("abcdef", "zz", 2).unwrap(), "abcd...");
    assert_eq!(extract_snippet("abcd", "zz", 2).unwrap(), "abcd");
    assert_eq!(extract_snippet("Rust rust", "rust", 0).unwrap(), "Rust...");
}

#[test]
fn test_word_count() {
    assert_eq!(plain("/t/test.txt", FileType::Text, "one two three four five").word_count, 5);
    assert_eq!(plain("/t/test.txt", FileType::Text, "one\ntwo\nthree").word_count, 3);
}

#[test]
fn test_extract_empty_file() {
    let extracted = plain("/t/empty.txt", FileType::Text, "");
    assert_eq!(extracted.text, "");
    assert_eq!(extracted.word_count, 0);
}

#[test]
fn word_count_uses_unicode_white_space() {
    assert_eq!(word_count("  a\u{a0}b\u{3000}c  "), 3);
    assert_eq!(word_count("\t\r\n"), 0);
    assert_eq!(word_count("x"), 1);
}

#[test]
fn docx_runs_and_paragraphs_are_joined() {
    let paras = vec![
        vec!["Hello".to_string(), "world".to_string()],
        vec![],
        vec!["Bye".to_string()],
    ];
    assert_eq!(docx_text(&paras), "Hello world \n\nBye \n");
    let c = extract_text("/d/a.docx", FileType::Docx, RawContent::Docx(Ok(paras))).unwrap();
    assert_eq!(c.word_count, 3);
}

#[test]
fn extraction_errors_carry_their_messages() {
    match extract_text("/d/a.pdf", FileType::Pdf, RawContent::Pdf(Err("bad xref".to_string()))) {
        Err(Error::Extraction(m)) => assert_eq!(m, "PDF extraction failed: bad xref"),
        other => panic!("unexpected {:?}", other),
    }
    match extract_text("/d/a.pdf", FileType::Pdf, RawContent::PdfAborted) {
        Err(Error::Extraction(m)) => assert!(m.starts_with("PDF extraction failed")),
        other => panic!("unexpected {:?}", other),
    }
    match extract_text("/d/a.docx", FileType::Docx, RawContent::Docx(Err("zip".to_string()))) {
        Err(Error::Other(m)) => assert_eq!(m, "DOCX extraction failed: zip"),
        other => panic!("unexpected {:?}", other),
    }
    let pdf = extract_text("/d/a.pdf", FileType::Pdf, RawContent::Pdf(Ok("one two".to_string())));
    assert_eq!(pdf.unwrap().word_count, 2);
}

#[test]
fn unsupported_kinds_are_refused() {
    assert_eq!(text_source(FileType::Pdf), Ok(TextSource::Pdf));
    assert_eq!(text_source(FileType::Unknown), Ok(TextSource::Plain));
    assert_eq!(text_source(FileType::Docx), Ok(TextSource::Docx));
    for k in [FileType::Image, FileType::Xlsx, FileType::Archive] {
        assert!(matches!(text_source(k), Err(Error::UnsupportedFileType(_))));
        let r = extract_text("/x", k, RawContent::Plain("text".to_string()));
        assert!(matches!(r, Err(Error::UnsupportedFileType(_))));
    }
    assert_eq!(
        text_source(FileType::Xlsx),
        Err(Error::UnsupportedFileType("Excel extraction not yet implemented".to_string()))
    );
}

#[test]
fn snippet_matching_lowers_any_letter() {
    assert_eq!(extract_snippet("abcdefgÉ", "é", 2).unwrap(), "...fgÉ");
    assert_eq!(extract_snippet("ÜBER alles", "über", 0).unwrap(), "ÜBER...");
}

#[test]
fn snippet_around_a_given_match() {
    assert_eq!(snippet_around("Short text", None, 5, 50), "Short text");
    assert_eq!(snippet_around("abcdefgh", Some(3), 2, 1), "...cdef...");
    assert_eq!(snippet_around("abcdefgh", Some(0), 2, 1), "abc...");
    assert_eq!(snippet_around("abcdefgh", None, 2, 3), "abcdef...");
}
