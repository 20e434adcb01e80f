use khoj::config::{join, Config, PrivacyConfig};

#[test]
fn test_default_config() {
    let config = Config::default();
    assert_eq!(config.search.default_limit, 20);
    assert_eq!(config.search.fuzzy_distance, 2);
    assert!(!config.storage.encrypt);
    assert!(!config.privacy.exclude_patterns.is_empty());
}

#[test]
fn config_for_home_places_the_index() {
    let c = Config::for_home(Some("/home/u".to_string()));
    assert_eq!(c.storage.index_path, "/home/u/.file-search/index");
    let d = Config::for_home(None);
    assert_eq!(d.storage.index_path, "./.file-search/index");
    assert_eq!(join("/root/", "x"), "/root/x");
    assert_eq!(join("", "x"), "x");
}

#[test]
fn default_privacy_config() {
    let p = PrivacyConfig::default();
    assert_eq!(p.exclude_patterns.len(), 8);
    assert_eq!(p.exclude_patterns[6], "**/*.key");
    assert_eq!(p.respect_ignore_files, vec![".gitignore".to_string(), ".searchignore".to_string()]);
    assert_eq!(p.max_file_size, 100 * 1024 * 1024);
}
