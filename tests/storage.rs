use khoj::extractors::ExtractedContent;
use khoj::storage::{Database, VectorStore};
use khoj::types::{FileMetadata, FileType};
use khoj::Error;

fn create_test_metadata() -> FileMetadata {
    FileMetadata {
        id: 0,
        path: "/test/file.txt".to_string(),
        filename: "file.txt".to_string(),
        file_type: FileType::Text,
        mime_type: Some("text/plain".to_string()),
        size: 100,
        hash: "abc123".to_string(),
        created_at: 1000,
        modified_at: 2000,
        indexed_at: 3000,
    }
}

#[test]
fn test_upsert_file() {
    let mut db = Database::new();
    let metadata = create_test_metadata();
    let file_id = db.upsert_file(&metadata).unwrap();
    assert!(file_id > 0);
    let retrieved = db.get_file_by_path(&metadata.path);
    assert!(retrieved.is_some());
    let retrieved = retrieved.unwrap();
    assert_eq!(retrieved.path, metadata.path);
    assert_eq!(retrieved.hash, metadata.hash);
}

#[test]
fn test_upsert_content() {
    let mut db = Database::new();
    let metadata = create_test_metadata();
    let file_id = db.upsert_file(&metadata).unwrap();
    let content = ExtractedContent {
        text: "Hello, world!".to_string(),
        word_count: 2,
        language: None,
    };
    db.upsert_content(file_id, &content).unwrap();
    let retrieved = db.get_content(file_id);
    assert!(retrieved.is_some());
    let retrieved = retrieved.unwrap();
    assert_eq!(retrieved.text, content.text);
    assert_eq!(retrieved.word_count, content.word_count);
}

#[test]
fn test_needs_reindex() {
    let mut db = Database::new();
    let metadata = create_test_metadata();
    assert!(db.needs_reindex(&metadata.path, &metadata.hash));
    db.upsert_file(&metadata).unwrap();
    assert!(!db.needs_reindex(&metadata.path, &metadata.hash));
    assert!(db.needs_reindex(&metadata.path, "different_hash"));
}

#[test]
fn test_count_files() {
    let mut db = Database::new();
    assert_eq!(db.count_files(), 0);
    let metadata = create_test_metadata();
    db.upsert_file(&metadata).unwrap();
    assert_eq!(db.count_files(), 1);
}

#[test]
fn test_get_stats() {
    let mut db = Database::new();
    let metadata1 = FileMetadata {
        path: "/test/file1.txt".to_string(),
        ..create_test_metadata()
    };
    let metadata2 = FileMetadata {
        path: "/test/file2.rs".to_string(),
        file_type: FileType::Code,
        ..create_test_metadata()
    };
    db.upsert_file(&metadata1).unwrap();
    db.upsert_file(&metadata2).unwrap();
    let stats = db.get_stats().unwrap();
    assert_eq!(stats.total_files, 2);
    assert_eq!(stats.total_size, 200);
    assert_eq!(stats.by_type.len(), 2);
}

#[test]
fn test_delete_file() {
    let mut db = Database::new();
    let metadata = create_test_metadata();
    let file_id = db.upsert_file(&metadata).unwrap();
    assert_eq!(db.count_files(), 1);
    db.delete_file(&metadata.path);
    assert_eq!(db.count_files(), 0);
    let content = db.get_content(file_id);
    assert!(content.is_none());
}

#[test]
fn upsert_keeps_id_and_creation_time() {
    let mut db = Database::new();
    let first = db.upsert_file(&create_test_metadata()).unwrap();
    let changed = FileMetadata {
        hash: "def456".to_string(),
        size: 7,
        created_at: 5,
        modified_at: 6,
        ..create_test_metadata()
    };
    let second = db.upsert_file(&changed).unwrap();
    assert_eq!(first, second);
    assert_eq!(db.count_files(), 1);
    let rec = db.get_file(first).unwrap();
    assert_eq!(rec.hash, "def456");
    assert_eq!(rec.size, 7);
    assert_eq!(rec.created_at, 1000);
    assert_eq!(rec.modified_at, 6);
    let other = FileMetadata { path: "/test/other.txt".to_string(), ..create_test_metadata() };
    assert_eq!(db.upsert_file(&other).unwrap(), first + 1);
}

#[test]
fn cascade_delete_removes_content_only_of_that_file() {
    let mut db = Database::new();
    let a = db.upsert_file(&create_test_metadata()).unwrap();
    let other = FileMetadata { path: "/test/b.txt".to_string(), ..create_test_metadata() };
    let b = db.upsert_file(&other).unwrap();
    let c = ExtractedContent { text: "x".to_string(), word_count: 1, language: None };
    db.upsert_content(a, &c).unwrap();
    db.upsert_content(b, &c).unwrap();
    db.delete_file("/test/file.txt");
    assert!(db.get_content(a).is_none());
    assert!(db.get_file(a).is_none());
    assert!(db.get_content(b).is_some());
    db.delete_file("/test/missing.txt");
    assert_eq!(db.count_files(), 1);
}

#[test]
fn content_for_unknown_file_is_refused() {
    let mut db = Database::new();
    let c = ExtractedContent { text: "x".to_string(), word_count: 1, language: None };
    assert!(matches!(db.upsert_content(9, &c), Err(Error::Database(_))));
    assert!(db.get_content(9).is_none());
}

#[test]
fn stats_count_each_kind_in_name_order() {
    let mut db = Database::new();
    let kinds = [
        ("/a.txt", FileType::Text, 1u64),
        ("/b.rs", FileType::Code, 2),
        ("/c.txt", FileType::Text, 3),
        ("/d.zip", FileType::Archive, 4),
    ];
    for (p, k, s) in kinds {
        let m = FileMetadata { path: p.to_string(), file_type: k, size: s, ..create_test_metadata() };
        db.upsert_file(&m).unwrap();
    }
    let stats = db.get_stats().unwrap();
    assert_eq!(stats.total_size, 10);
    assert_eq!(
        stats.by_type,
        vec![("archive".to_string(), 1), ("code".to_string(), 1), ("text".to_string(), 2)]
    );
}

#[test]
fn restore_keeps_identifiers() {
    let mut db = Database::new();
    let rec = FileMetadata { id: 17, ..create_test_metadata() };
    db.restore_file(&rec).unwrap();
    assert!(db.restore_file(&rec).is_err());
    let other = FileMetadata { path: "/n.txt".to_string(), ..create_test_metadata() };
    let id = db.upsert_file(&other).unwrap();
    assert_eq!(id, 18);
    assert_eq!(db.get_file(17).unwrap().path, "/test/file.txt");
    let bad = FileMetadata { id: 0, path: "/z".to_string(), ..create_test_metadata() };
    assert!(db.restore_file(&bad).is_err());
}

#[test]
fn test_create_vector_store() {
    let store: VectorStore<f32> = VectorStore::new(384);
    assert_eq!(store.dimension(), 384);
    assert_eq!(store.len(), 0);
    assert!(store.is_empty());
}

#[test]
fn test_dimension_mismatch() {
    let mut store: VectorStore<f32> = VectorStore::new(128);
    let wrong_dim: Vec<f32> = vec![0.1, 0.2, 0.3];
    let result = store.upsert(1, wrong_dim);
    assert!(result.is_err());
}

#[test]
fn test_delete() {
    let mut store: VectorStore<f32> = VectorStore::new(128);
    let embedding: Vec<f32> = (0..128).map(|i| i as f32).collect();
    store.upsert(1, embedding).unwrap();
    assert_eq!(store.len(), 1);
    store.delete(1);
    assert_eq!(store.len(), 0);
}

#[test]
fn vector_upsert_replaces_and_reports_mismatch() {
    let mut store: VectorStore<u8> = VectorStore::new(2);
    store.upsert(5, vec![1, 2]).unwrap();
    store.upsert(5, vec![3, 4]).unwrap();
    store.upsert(6, vec![0, 0]).unwrap();
    assert_eq!(store.len(), 2);
    let (id, v) = store.entry(0);
    assert_eq!(id, 5);
    assert_eq!(v, &vec![3, 4]);
    match store.upsert(7, vec![1]) {
        Err(Error::Embedding(m)) => assert_eq!(m, "Embedding dimension mismatch: expected 2, got 1"),
        other => panic!("unexpected {:?}", other),
    }
    assert_eq!(store.len(), 2);
}
