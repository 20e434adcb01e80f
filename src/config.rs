//! Configuration of the index location, searching and privacy filters.
use vstd::prelude::*;

use crate::chars::{has_suffix, chars_of};
use crate::foreign::home_dir;

verus! {

/// Main configuration.
#[derive(Debug, Clone)]
pub struct Config {
    pub storage: StorageConfig,
    pub search: SearchConfig,
    pub privacy: PrivacyConfig,
}

/// Where the index lives.
#[derive(Debug, Clone)]
pub struct StorageConfig {
    /// Directory that holds the index.
    pub index_path: String,
    /// Whether the index is encrypted.
    pub encrypt: bool,
}

/// Defaults for searching.
#[derive(Debug, Clone, Copy)]
pub struct SearchConfig {
    /// Number of results returned when none is asked for.
    pub default_limit: usize,
    /// Edit distance allowed by fuzzy matching.
    pub fuzzy_distance: u8,
}

/// Which files the walker leaves out.
#[derive(Debug, Clone)]
pub struct PrivacyConfig {
    /// Patterns of paths to exclude.
    pub exclude_patterns: Vec<String>,
    /// Names of the ignore files to respect.
    pub respect_ignore_files: Vec<String>,
    /// Largest file size to index, in bytes.
    pub max_file_size: u64,
}

/// The views of a vector of strings.
pub open spec fn views(v: Seq<String>) -> Seq<Seq<char>> {
    v.map_values(|s: String| s@)
}

/// Patterns excluded by default: version control, credentials, dependency trees, keys.
pub open spec fn default_exclude_patterns() -> Seq<Seq<char>> {
    seq![
        "**/.git"@,
        "**/.ssh"@,
        "**/passwords"@,
        "**/.gnupg"@,
        "**/node_modules"@,
        "**/target"@,
        "**/*.key"@,
        "**/*.pem"@,
    ]
}

/// Largest file indexed by default: 100 MiB.
pub const DEFAULT_MAX_FILE_SIZE: u64 = 104857600;

/// Number of results returned by default.
pub const DEFAULT_LIMIT: usize = 20;

/// `rel` appended to the directory `base`, with one separator between them.
pub open spec fn join_path(base: Seq<char>, rel: Seq<char>) -> Seq<char> {
    if base.len() == 0 {
        rel
    } else if has_suffix(base, "/"@) {
        base + rel
    } else {
        base + "/"@ + rel
    }
}

/// `rel` appended to the directory `base`.
pub fn join(base: &str, rel: &str) -> (r: String)
    ensures
        r@ == join_path(base@, rel@),
{
    let b = chars_of(base);
    let slash = chars_of("/");
    let mut out = String::from_str(base);
    if b.len() == 0 {
        return String::from_str(rel);
    }
    if !crate::chars::ends_with(&b, &slash) {
        out.append("/");
    }
    out.append(rel);
    out
}

impl PrivacyConfig {
    /// Whether the ignore file called `name` is to be respected.
    pub fn respects(&self, name: &str) -> (r: bool)
        ensures
            r == views(self.respect_ignore_files@).contains(name@),
    {
        let n = chars_of(name);
        let mut i: usize = 0;
        while i < self.respect_ignore_files.len()
            invariant
                i <= self.respect_ignore_files@.len(),
                n@ == name@,
                forall|k: int| 0 <= k < i ==> self.respect_ignore_files@[k]@ != name@,
            decreases self.respect_ignore_files@.len() - i,
        {
            let f = chars_of(self.respect_ignore_files[i].as_str());
            if crate::chars::seq_eq(&f, &n) {
                assert(views(self.respect_ignore_files@)[i as int] == name@);
                return true;
            }
            i = i + 1;
        }
        assert(!views(self.respect_ignore_files@).contains(name@)) by {
            if views(self.respect_ignore_files@).contains(name@) {
                let k = choose|k: int|
                    0 <= k < views(self.respect_ignore_files@).len() && views(
                        self.respect_ignore_files@,
                    )[k] == name@;
                assert(self.respect_ignore_files@[k]@ == name@);
            }
        }
        false
    }
}

impl Default for PrivacyConfig {
    fn default() -> (r: PrivacyConfig)
        ensures
            views(r.exclude_patterns@) == default_exclude_patterns(),
            views(r.respect_ignore_files@) == seq![".gitignore"@, ".searchignore"@],
            r.max_file_size == DEFAULT_MAX_FILE_SIZE,
    {
        let mut exclude_patterns: Vec<String> = Vec::new();
        exclude_patterns.push(String::from_str("**/.git"));
        exclude_patterns.push(String::from_str("**/.ssh"));
        exclude_patterns.push(String::from_str("**/passwords"));
        exclude_patterns.push(String::from_str("**/.gnupg"));
        exclude_patterns.push(String::from_str("**/node_modules"));
        exclude_patterns.push(String::from_str("**/target"));
        exclude_patterns.push(String::from_str("**/*.key"));
        exclude_patterns.push(String::from_str("**/*.pem"));
        let mut respect_ignore_files: Vec<String> = Vec::new();
        respect_ignore_files.push(String::from_str(".gitignore"));
        respect_ignore_files.push(String::from_str(".searchignore"));
        assert(views(exclude_patterns@) =~= default_exclude_patterns());
        assert(views(respect_ignore_files@) =~= seq![".gitignore"@, ".searchignore"@]);
        PrivacyConfig { exclude_patterns, respect_ignore_files, max_file_size: DEFAULT_MAX_FILE_SIZE }
    }
}

/// Directory of the index below a home directory.
pub open spec fn index_path_under(home: Option<Seq<char>>) -> Seq<char> {
    join_path(
        match home {
            Some(h) => h,
            None => "."@,
        },
        ".file-search/index"@,
    )
}

impl Config {
    /// The default configuration for a user whose home directory is `home`
    /// (the working directory when there is none).
    pub fn for_home(home: Option<String>) -> (r: Config)
        ensures
            r.storage.index_path@ == index_path_under(
                match home {
                    Some(h) => Some(h@),
                    None => None,
                },
            ),
            !r.storage.encrypt,
            r.search.default_limit == DEFAULT_LIMIT,
            r.search.fuzzy_distance == 2,
            views(r.privacy.exclude_patterns@) == default_exclude_patterns(),
            views(r.privacy.respect_ignore_files@) == seq![".gitignore"@, ".searchignore"@],
            r.privacy.max_file_size == DEFAULT_MAX_FILE_SIZE,
    {
        let index_path = match &home {
            Some(h) => join(h.as_str(), ".file-search/index"),
            None => join(".", ".file-search/index"),
        };
        Config {
            storage: StorageConfig { index_path, encrypt: false },
            search: SearchConfig { default_limit: DEFAULT_LIMIT, fuzzy_distance: 2 },
            privacy: PrivacyConfig::default(),
        }
    }
}

impl Default for Config {
    /// The default configuration for the current user.
    fn default() -> (r: Config)
        ensures
            exists|home: Option<Seq<char>>| r.storage.index_path@ == #[trigger] index_path_under(home),
            !r.storage.encrypt,
            r.search.default_limit == DEFAULT_LIMIT,
            r.search.fuzzy_distance == 2,
            views(r.privacy.exclude_patterns@) == default_exclude_patterns(),
            r.privacy.max_file_size == DEFAULT_MAX_FILE_SIZE,
    {
        Config::for_home(home_dir())
    }
}

} // verus!
