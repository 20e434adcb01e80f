use khoj::config::PrivacyConfig;
use khoj::indexer::walker::{extension, FileWalker};
use khoj::types::FileType;

fn create_test_config() -> PrivacyConfig {
    PrivacyConfig {
        exclude_patterns: vec![
            "**/.git".to_string(),
            "**/node_modules".to_string(),
            "**/*.key".to_string(),
        ],
        respect_ignore_files: vec![".gitignore".to_string()],
        max_file_size: 10 * 1024 * 1024,
    }
}

#[test]
fn test_detect_file_type() {
    let walker = FileWalker::new(create_test_config());
    assert_eq!(walker.detect_file_type("test.txt"), FileType::Text);
    assert_eq!(walker.detect_file_type("test.rs"), FileType::Code);
    assert_eq!(walker.detect_file_type("test.md"), FileType::Markdown);
    assert_eq!(walker.detect_file_type("test.unknown"), FileType::Unknown);
}

#[test]
fn test_matches_pattern() {
    let walker = FileWalker::new(create_test_config());
    assert!(walker.matches_pattern("/path/to/.git/file", "**/.git"));
    assert!(walker.matches_pattern("/path/node_modules/pkg", "**/node_modules"));
    assert!(walker.matches_pattern("/path/secret.key", "**/*.key"));
    assert!(!walker.matches_pattern("/path/to/file.txt", "**/.git"));
}

#[test]
fn extension_pattern_needs_the_dot() {
    let walker = FileWalker::new(create_test_config());
    assert!(!walker.matches_pattern("/path/monkey", "**/*.key"));
    assert!(walker.matches_pattern("/a/b.log", "**.log"));
    assert!(!walker.matches_pattern("/a/b.log.txt", "**.log"));
    assert!(walker.matches_pattern("/a/secret/b", "secret"));
    assert!(!walker.matches_pattern("/a/b", "secret"));
}

#[test]
fn detect_file_type_ignores_case_and_directories() {
    let walker = FileWalker::new(create_test_config());
    assert_eq!(walker.detect_file_type("/a/REPORT.PDF"), FileType::Pdf);
    assert_eq!(walker.detect_file_type("/a.d/README"), FileType::Unknown);
    assert_eq!(walker.detect_file_type("/home/u/.bashrc"), FileType::Unknown);
    assert_eq!(walker.detect_file_type("/x/photo.jpeg"), FileType::Image);
    assert_eq!(walker.detect_file_type("/x/a.tar.gz"), FileType::Archive);
}

#[test]
fn extension_of_paths() {
    assert_eq!(extension("/a/b.txt"), Some("txt".to_string()));
    assert_eq!(extension("/a/b.tar.gz"), Some("gz".to_string()));
    assert_eq!(extension("/a/.hidden"), None);
    assert_eq!(extension("/a.b/c"), None);
    assert_eq!(extension("/a/b."), Some("".to_string()));
}

#[test]
fn accept_entry_filters_excluded_large_and_archives() {
    let walker = FileWalker::new(create_test_config());
    let kept = walker.accept_entry("/r/test.txt", 5).unwrap();
    assert_eq!(kept.path, "/r/test.txt");
    assert_eq!(kept.file_type, FileType::Text);
    assert_eq!(kept.size, 5);
    assert!(walker.accept_entry("/r/node_modules/package.json", 2).is_none());
    assert!(walker.accept_entry("/r/secret.key", 8).is_none());
    assert!(walker.accept_entry("/r/big.txt", 10 * 1024 * 1024 + 1).is_none());
    assert!(walker.accept_entry("/r/exact.txt", 10 * 1024 * 1024).is_some());
    assert!(walker.accept_entry("/r/bundle.zip", 10).is_none());
    assert_eq!(walker.accept_entry("/r/notes", 10).unwrap().file_type, FileType::Unknown);
}

#[test]
fn walker_respects_configured_ignore_files() {
    let walker = FileWalker::new(create_test_config());
    assert!(walker.respects_ignore_file(".gitignore"));
    assert!(!walker.respects_ignore_file(".searchignore"));
    assert!(walker.is_excluded("/p/.git/config"));
    assert!(!walker.is_excluded("/p/src/main.rs"));
}

#[test]
fn file_type_names_round_trip() {
    let kinds = [
        FileType::Text,
        FileType::Code,
        FileType::Markdown,
        FileType::Pdf,
        FileType::Docx,
        FileType::Xlsx,
        FileType::Image,
        FileType::Archive,
        FileType::Unknown,
    ];
    for k in kinds {
        assert_eq!(FileType::from_tag(k.as_str()), Some(k));
    }
    assert_eq!(FileType::from_tag("rs"), None);
    assert_eq!(FileType::from_extension("Md"), FileType::Markdown);
    assert_eq!(FileType::from_extension("7z"), FileType::Archive);
    assert_eq!(FileType::from_extension("DOC"), FileType::Docx);
    assert_eq!(FileType::from_extension("xls"), FileType::Xlsx);
    assert_eq!(FileType::from_extension("rb"), FileType::Code);
}

#[test]
fn segment_patterns_match_whole_segments() {
    let walker = FileWalker::new(create_test_config());
    assert!(!walker.matches_pattern("/a/targets/b", "**/target"));
    assert!(walker.matches_pattern("/a/target/b", "**/target"));
    assert!(walker.matches_pattern("/a/target", "**/target"));
    assert!(!walker.matches_pattern("/p/.github/workflows/ci.yml", "**/.git"));
    assert!(walker.matches_pattern("/p/a/b/c", "**/a/b"));
    assert!(walker.accept_entry("/r/.github/ci.yml", 3).is_some());
}
