use khoj::indexer::metadata::{compute_file_hash, extract_metadata, file_name, is_modified};
use khoj::types::FileType;

#[test]
fn test_extract_metadata() {
    let metadata = extract_metadata("/tmp/x/test.txt", FileType::Text, b"Hello, world!", None, Some(1700000000), 1700000100);
    assert_eq!(metadata.filename, "test.txt");
    assert_eq!(metadata.file_type, FileType::Text);
    assert_eq!(metadata.size, 13);
    assert!(!metadata.hash.is_empty());
    assert_eq!(metadata.hash.len(), 64);
    assert!(metadata.modified_at > 0);
    assert!(metadata.indexed_at > 0);
}

#[test]
fn test_compute_file_hash() {
    let hash = compute_file_hash(b"test content");
    let hash2 = compute_file_hash(b"test content");
    assert_eq!(hash, hash2);
    let hash3 = compute_file_hash(b"different content");
    assert_ne!(hash, hash3);
}

#[test]
fn test_is_modified() {
    let original_hash = compute_file_hash(b"original");
    assert!(!is_modified(b"original", &original_hash));
    assert!(is_modified(b"modified", &original_hash));
}

#[test]
fn test_mime_type_detection() {
    let test_cases = vec![
        ("test.txt", FileType::Text),
        ("test.md", FileType::Markdown),
        ("test.rs", FileType::Code),
        ("test.py", FileType::Code),
    ];
    for (filename, file_type) in test_cases {
        let path = format!("/tmp/{}", filename);
        let metadata = extract_metadata(&path, file_type, b"content", None, None, 1);
        assert!(metadata.mime_type.is_some(), "Expected mime type for {}, got None", filename);
    }
}

#[test]
fn sha256_of_known_inputs() {
    assert_eq!(
        compute_file_hash(b""),
        "e3b0c44298fc1c149afbf4c8996fb92427ae41e4649b934ca495991b7852b855"
    );
    assert_eq!(
        compute_file_hash(b"abc"),
        "ba7816bf8f01cfea414140de5dae2223b00361a396177a9cb410ff61f20015ad"
    );
}

#[test]
fn timestamps_fall_back() {
    let m = extract_metadata("/a/b.pdf", FileType::Pdf, b"x", None, None, 42);
    assert_eq!((m.created_at, m.modified_at, m.indexed_at), (42, 42, 42));
    let m = extract_metadata("/a/b.pdf", FileType::Pdf, b"x", None, Some(7), 42);
    assert_eq!((m.created_at, m.modified_at), (7, 7));
    let m = extract_metadata("/a/b.pdf", FileType::Pdf, b"x", Some(3), Some(7), 42);
    assert_eq!((m.created_at, m.modified_at), (3, 7));
    assert_eq!(m.id, 0);
    assert_eq!(m.mime_type.as_deref(), Some("application/pdf"));
}

#[test]
fn file_names_of_paths() {
    assert_eq!(file_name("/a/b/c.txt"), "c.txt");
    assert_eq!(file_name("c.txt"), "c.txt");
    assert_eq!(file_name("/a/b/"), "unknown");
    assert_eq!(file_name("/a/.."), "unknown");
}
