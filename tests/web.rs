use khoj::storage::IndexStats;
use khoj::web::{content_disposition, content_type_for, default_limit, status_for, StatsResponse};
use khoj::Error;

#[test]
fn error_statuses() {
    assert_eq!(status_for(&Error::FileNotFound("x".to_string())), 404);
    assert_eq!(status_for(&Error::InvalidInput("x".to_string())), 400);
    assert_eq!(status_for(&Error::UnsupportedFileType("x".to_string())), 400);
    assert_eq!(status_for(&Error::Database("x".to_string())), 500);
    assert_eq!(status_for(&Error::SearchIndex("x".to_string())), 500);
}

#[test]
fn served_file_headers() {
    assert_eq!(content_type_for(&Some("text/plain".to_string())), "text/plain");
    assert_eq!(content_type_for(&None), "application/octet-stream");
    assert_eq!(content_disposition("a b.txt"), "inline; filename=\"a b.txt\"");
}

#[test]
fn stats_body_and_defaults() {
    let stats = IndexStats { total_files: 3, total_size: 10, by_type: vec![] };
    let r = StatsResponse::new(&stats, "/idx".to_string(), true, false);
    assert_eq!(r.total_files, 3);
    assert_eq!(r.index_location, "/idx");
    assert!(r.has_keyword_index && !r.has_semantic_index);
    assert_eq!(default_limit(), 10);
}
