use khoj::extractors::ExtractedContent;
use khoj::pipeline::{index_file, Extracted};
use khoj::storage::{Database, VectorStore};
use khoj::types::{FileMetadata, FileType};
use khoj::Error;

fn meta(path: &str, name: &str, kind: FileType) -> FileMetadata {
    FileMetadata {
        id: 0,
        path: path.to_string(),
        filename: name.to_string(),
        file_type: kind,
        mime_type: None,
        size: 3,
        hash: "h".to_string(),
        created_at: 1,
        modified_at: 1,
        indexed_at: 1,
    }
}

fn content(text: &str) -> ExtractedContent {
    ExtractedContent { text: text.to_string(), word_count: text.split_whitespace().count(), language: None }
}

fn index_three(db: &mut Database, tv: &mut VectorStore<u8>, iv: &mut VectorStore<u8>) -> Vec<i64> {
    let files = [
        ("/d/a.txt", "a.txt", "rust systems programming"),
        ("/d/b.txt", "b.txt", "python interpreted language"),
        ("/d/c.txt", "c.txt", "hello world"),
    ];
    let mut ids = Vec::new();
    for (p, n, t) in files {
        let ex = Extracted::Text(Ok(content(t)), Some(Ok(vec![1, 2])));
        let r = index_file(db, tv, iv, &meta(p, n, FileType::Text), ex).unwrap();
        assert!(r.indexed);
        assert_eq!(r.document.unwrap().content, t);
        ids.push(r.file_id);
    }
    ids
}

#[test]
fn reindexing_a_directory_changes_no_counts() {
    let mut db = Database::new();
    let mut tv: VectorStore<u8> = VectorStore::new(2);
    let mut iv: VectorStore<u8> = VectorStore::new(3);
    let first = index_three(&mut db, &mut tv, &mut iv);
    assert_eq!((db.count_files(), tv.len()), (3, 3));
    let second = index_three(&mut db, &mut tv, &mut iv);
    assert_eq!(first, second);
    assert_eq!((db.count_files(), tv.len(), iv.len()), (3, 3, 0));
}

#[test]
fn failed_extraction_keeps_metadata_only() {
    let mut db = Database::new();
    let mut tv: VectorStore<u8> = VectorStore::new(2);
    let mut iv: VectorStore<u8> = VectorStore::new(3);
    let ex = Extracted::Text(Err(Error::Extraction("PDF extraction failed: x".to_string())), None);
    let r = index_file(&mut db, &mut tv, &mut iv, &meta("/d/x.pdf", "x.pdf", FileType::Pdf), ex).unwrap();
    assert!(!r.indexed);
    assert!(r.document.is_none());
    assert_eq!(db.count_files(), 1);
    assert!(db.get_content(r.file_id).is_none());
}

#[test]
fn images_get_a_named_document() {
    let mut db = Database::new();
    let mut tv: VectorStore<u8> = VectorStore::new(2);
    let mut iv: VectorStore<u8> = VectorStore::new(3);
    let m = meta("/d/cat.png", "cat.png", FileType::Image);
    let r = index_file(&mut db, &mut tv, &mut iv, &m, Extracted::Image(Some(Ok(vec![1, 2, 3])))).unwrap();
    assert_eq!(r.document.unwrap().content, "image file: cat.png");
    assert_eq!(iv.len(), 1);
    let r = index_file(&mut db, &mut tv, &mut iv, &m, Extracted::Image(Some(Err(Error::Io("x".to_string()))))).unwrap();
    assert!(!r.indexed);
    let r = index_file(&mut db, &mut tv, &mut iv, &m, Extracted::Image(None)).unwrap();
    assert!(r.indexed);
    let bad = index_file(&mut db, &mut tv, &mut iv, &m, Extracted::Image(Some(Ok(vec![1]))));
    assert!(matches!(bad, Err(Error::Embedding(_))));
}

#[test]
fn text_embedding_errors_are_surfaced() {
    let mut db = Database::new();
    let mut tv: VectorStore<u8> = VectorStore::new(2);
    let mut iv: VectorStore<u8> = VectorStore::new(3);
    let ex = Extracted::Text(Ok(content("hello")), Some(Err(Error::Embedding("model failed".to_string()))));
    let r = index_file(&mut db, &mut tv, &mut iv, &meta("/d/a.txt", "a.txt", FileType::Text), ex);
    assert!(matches!(r, Err(Error::Embedding(m)) if m == "model failed"));
    assert_eq!(tv.len(), 0);
}
