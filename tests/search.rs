use khoj::extractors::ExtractedContent;
use khoj::search::hybrid::{document_hit, hybrid_merge, image_hit, snippet_for, HybridResults};
use khoj::search::rank::top_k_by_key;
use khoj::search::rrf::{reciprocal_rank_fusion, RrfScore};
use khoj::storage::Database;
use khoj::types::{FileMetadata, FileType, SearchResult};

fn hit(id: i64, name: &str, score: f32) -> SearchResult<f32> {
    SearchResult {
        file_id: id,
        path: name.to_string(),
        filename: name.to_string(),
        score,
        snippet: None,
    }
}

fn value(s: RrfScore) -> f64 {
    s.num as f64 / (s.den as f64 * 1_000_000.0)
}

#[test]
fn test_reciprocal_rank_fusion() {
    let keyword_results = vec![
        hit(1, "file1.txt", 10.0),
        hit(2, "file2.txt", 8.0),
        hit(3, "file3.txt", 6.0),
    ];
    let semantic_results: Vec<(i64, f32)> = vec![(2, 0.95), (4, 0.90), (1, 0.85)];
    let combined = reciprocal_rank_fusion(&keyword_results, &semantic_results, 500_000, 10);
    assert_eq!(combined[0].0, 2);
    assert!(combined.len() >= 4);
}

#[test]
fn test_rrf_keyword_only() {
    let keyword_results = vec![hit(1, "file1.txt", 10.0)];
    let semantic_results: Vec<(i64, f32)> = vec![];
    let combined = reciprocal_rank_fusion(&keyword_results, &semantic_results, 1_000_000, 10);
    assert_eq!(combined.len(), 1);
    assert_eq!(combined[0].0, 1);
}

#[test]
fn test_rrf_semantic_only() {
    let keyword_results: Vec<SearchResult<f32>> = vec![];
    let semantic_results: Vec<(i64, f32)> = vec![(1, 0.95), (2, 0.90)];
    let combined = reciprocal_rank_fusion(&keyword_results, &semantic_results, 0, 10);
    assert_eq!(combined.len(), 2);
    assert_eq!(combined[0].0, 1);
}

#[test]
fn rrf_orders_and_scores_exactly() {
    let keyword_results = vec![hit(1, "a", 10.0), hit(2, "b", 8.0), hit(3, "c", 6.0)];
    let semantic_results: Vec<(i64, f32)> = vec![(2, 0.95), (4, 0.90), (1, 0.85)];
    let combined = reciprocal_rank_fusion(&keyword_results, &semantic_results, 500_000, 10);
    let ids: Vec<i64> = combined.iter().map(|p| p.0).collect();
    assert_eq!(ids, vec![2, 1, 4, 3]);
    assert!((value(combined[0].1) - (0.5 / 61.0 + 0.5 / 62.0)).abs() < 1e-12);
    assert!((value(combined[1].1) - (0.5 / 61.0 + 0.5 / 63.0)).abs() < 1e-12);
    assert!((value(combined[2].1) - 0.5 / 62.0).abs() < 1e-12);
    assert!((value(combined[3].1) - 0.5 / 63.0).abs() < 1e-12);
    let cut = reciprocal_rank_fusion(&keyword_results, &semantic_results, 500_000, 2);
    assert_eq!(cut.iter().map(|p| p.0).collect::<Vec<_>>(), vec![2, 1]);
}

#[test]
fn rrf_single_list_keeps_its_order_for_any_weight() {
    let keyword_results = vec![hit(7, "a", 1.0), hit(3, "b", 1.0), hit(9, "c", 1.0)];
    let none: Vec<(i64, f32)> = vec![];
    for w in [0u32, 300_000, 1_000_000] {
        let fused = reciprocal_rank_fusion(&keyword_results, &none, w, 2);
        assert_eq!(fused.iter().map(|p| p.0).collect::<Vec<_>>(), vec![7, 3]);
    }
    let empty: Vec<SearchResult<f32>> = vec![];
    assert!(reciprocal_rank_fusion(&empty, &none, 500_000, 10).is_empty());
}

#[test]
fn top_k_picks_highest_keys() {
    let keys = vec![5u64, 9, 1, 9, 7];
    let top = top_k_by_key(&keys, 3);
    assert_eq!(top.len(), 3);
    assert_eq!(keys[top[0]], 9);
    assert_eq!(keys[top[1]], 9);
    assert_eq!(top[2], 4);
    assert_eq!(top_k_by_key(&keys, 10).len(), 5);
    assert!(top_k_by_key(&keys, 0).is_empty());
}

fn meta(path: &str, name: &str) -> FileMetadata {
    FileMetadata {
        id: 0,
        path: path.to_string(),
        filename: name.to_string(),
        file_type: FileType::Text,
        mime_type: None,
        size: 1,
        hash: "h".to_string(),
        created_at: 1,
        modified_at: 1,
        indexed_at: 1,
    }
}

#[test]
fn hybrid_merge_attaches_payloads() {
    let mut db = Database::new();
    let a = db.upsert_file(&meta("/d/a.txt", "a.txt")).unwrap();
    let b = db.upsert_file(&meta("/d/b.txt", "b.txt")).unwrap();
    let keyword = vec![hit(a, "/kw/a.txt", 3.0)];
    let semantic: Vec<(i64, f32)> = vec![(b, 0.9), (42, 0.8), (a, 0.7)];
    match hybrid_merge(keyword, &semantic, 700_000, 10, &db) {
        HybridResults::Fused(v) => {
            assert_eq!(v.len(), 3);
            assert_eq!(v[0].file_id, a);
            assert_eq!(v[0].path, "/kw/a.txt");
            let hb = v.iter().find(|h| h.file_id == b).unwrap();
            assert_eq!(hb.path, "/d/b.txt");
            assert_eq!(hb.filename, "b.txt");
            let h42 = v.iter().find(|h| h.file_id == 42).unwrap();
            assert_eq!(h42.filename, "file_42");
            assert_eq!(h42.path, "file_42");
        }
        HybridResults::KeywordOnly(_) => panic!("expected fused results"),
    }
}

#[test]
fn hybrid_merge_without_semantic_hits_keeps_keyword_hits() {
    let db = Database::new();
    let keyword = vec![hit(1, "a", 3.0), hit(2, "b", 2.0), hit(3, "c", 1.0)];
    let none: Vec<(i64, f32)> = vec![];
    match hybrid_merge(keyword, &none, 700_000, 2, &db) {
        HybridResults::KeywordOnly(v) => {
            assert_eq!(v.len(), 2);
            assert_eq!(v[0].score, 3.0);
            assert_eq!(v[1].file_id, 2);
        }
        HybridResults::Fused(_) => panic!("expected keyword results"),
    }
}

#[test]
fn snippets_come_from_stored_content() {
    let mut db = Database::new();
    let id = db.upsert_file(&meta("/d/a.txt", "a.txt")).unwrap();
    assert_eq!(snippet_for(&db, id, "rust"), None);
    let text = format!("{}Rust{}", "x".repeat(150), "y".repeat(150));
    let c = ExtractedContent { text: text.clone(), word_count: 1, language: None };
    db.upsert_content(id, &c).unwrap();
    let s = snippet_for(&db, id, "rust").unwrap();
    assert_eq!(s, format!("...{}Rust{}...", "x".repeat(100), "y".repeat(100)));
}

#[test]
fn hits_carry_kind_and_snippet() {
    let mut db = Database::new();
    let id = db.upsert_file(&meta("/d/a.txt", "a.txt")).unwrap();
    let c = ExtractedContent { text: "find the word here".to_string(), word_count: 4, language: None };
    db.upsert_content(id, &c).unwrap();
    let h = document_hit(&db, hit(id, "/d/a.txt", 2.5), "word");
    assert_eq!(h.file_type, "text");
    assert_eq!(h.snippet.as_deref(), Some("find the word here"));
    assert_eq!(h.score, 2.5);
    let unknown = document_hit(&db, hit(99, "x", 1.0), "word");
    assert_eq!(unknown.file_type, "unknown");
    assert_eq!(unknown.snippet, None);
    let img = image_hit(&db, id, 0.5f32).unwrap();
    assert_eq!((img.path.as_str(), img.file_type.as_str()), ("/d/a.txt", "image"));
    assert!(image_hit(&db, 77, 0.5f32).is_none());
}
