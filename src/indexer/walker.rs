//! Decides which files of a subtree are indexed and of which kind they are.
use vstd::prelude::*;

use crate::chars::{
    chars_of, contains, contains_seq, ends_with, has_prefix, has_suffix, starts_with,
};
use crate::config::{views, PrivacyConfig};
use crate::foreign::lower_of;
use crate::types::{kind_of_extension, FileType};

verus! {

/// A file found during traversal that is to be indexed.
#[derive(Debug, Clone)]
pub struct DiscoveredFile {
    pub path: String,
    pub file_type: FileType,
    pub size: u64,
}

/// Whether the path `p` matches the exclusion pattern `pat`:
/// `**/*S` matches paths ending in `S`, `**/X` paths that hold `X` as a
/// whole run of `/`-separated segments, `**S` paths ending in `S`, and any
/// other pattern paths containing it.
pub open spec fn pattern_matches(p: Seq<char>, pat: Seq<char>) -> bool {
    if has_prefix(pat, "**/"@) {
        let rest = pat.subrange(3, pat.len() as int);
        if has_prefix(rest, "*"@) {
            has_suffix(p, rest.subrange(1, rest.len() as int))
        } else {
            contains_seq("/"@ + p + "/"@, "/"@ + rest + "/"@)
        }
    } else if has_prefix(pat, "**"@) {
        has_suffix(p, pat.subrange(2, pat.len() as int))
    } else {
        contains_seq(p, pat)
    }
}

/// Index of the last `c` in `s`, or -1.
pub open spec fn last_index(s: Seq<char>, c: char) -> int
    decreases s.len(),
{
    if s.len() == 0 {
        -1
    } else if s.last() == c {
        s.len() - 1
    } else {
        last_index(s.drop_last(), c)
    }
}

/// The last component of a path: what follows its last `/`.
pub open spec fn file_name_of(p: Seq<char>) -> Seq<char> {
    p.subrange(last_index(p, '/') + 1, p.len() as int)
}

/// The extension of a path: what follows the last `.` of its file name,
/// where that dot is not the name's first character.
pub open spec fn extension_of(p: Seq<char>) -> Option<Seq<char>> {
    let name = file_name_of(p);
    let d = last_index(name, '.');
    if d > 0 {
        Some(name.subrange(d + 1, name.len() as int))
    } else {
        None
    }
}

/// The kind of a file, from the extension of its path.
pub open spec fn kind_of_path(p: Seq<char>) -> FileType {
    match extension_of(p) {
        Some(e) => kind_of_extension(lower_of(e)),
        None => FileType::Unknown,
    }
}

proof fn lemma_last_index_bounds(s: Seq<char>, c: char)
    ensures
        -1 <= last_index(s, c) < s.len(),
        last_index(s, c) >= 0 ==> s[last_index(s, c)] == c,
    decreases s.len(),
{
    if s.len() > 0 && s.last() != c {
        lemma_last_index_bounds(s.drop_last(), c);
    }
}

/// Index of the last `c` in `s`, if any.
fn find_last(s: &Vec<char>, c: char) -> (r: Option<usize>)
    ensures
        match r {
            Some(i) => last_index(s@, c) == i,
            None => last_index(s@, c) == -1,
        },
{
    let mut i: usize = s.len();
    assert(s@.subrange(0, i as int) =~= s@);
    while i > 0
        invariant
            i <= s@.len(),
            last_index(s@, c) == last_index(s@.subrange(0, i as int), c),
        decreases i,
    {
        let ghost pre = s@.subrange(0, i as int);
        if s[i - 1] == c {
            assert(pre.last() == c);
            return Some(i - 1);
        }
        assert(pre.drop_last() =~= s@.subrange(0, i - 1));
        i = i - 1;
    }
    None
}

/// Index just past the last `/` of `p`: where the file name begins.
pub fn last_slash(p: &Vec<char>) -> (r: usize)
    ensures
        r == last_index(p@, '/') + 1,
        r <= p@.len(),
{
    let n = p.len();
    proof {
        lemma_last_index_bounds(p@, '/');
    }
    match find_last(p, '/') {
        Some(i) => i + 1,
        None => 0,
    }
}

/// The extension of `path`, if it has one.
pub fn extension(path: &str) -> (r: Option<String>)
    ensures
        match r {
            Some(e) => extension_of(path@) == Some(e@),
            None => extension_of(path@) is None,
        },
{
    let p = chars_of(path);
    let start = last_slash(&p);
    let name_str = path.substring_char(start, p.len());
    let name = chars_of(name_str);
    proof {
        lemma_last_index_bounds(name@, '.');
    }
    match find_last(&name, '.') {
        Some(dot) => {
            if dot > 0 {
                let e = name_str.substring_char(dot + 1, name.len());
                Some(String::from_str(e))
            } else {
                None
            }
        },
        None => None,
    }
}

/// Chooses which files of a subtree are indexed, under a privacy configuration.
pub struct FileWalker {
    pub privacy_config: PrivacyConfig,
}

impl FileWalker {
    /// Whether `path` is excluded by one of the configured patterns.
    pub open spec fn excluded(&self, path: Seq<char>) -> bool {
        exists|i: int|
            0 <= i < self.privacy_config.exclude_patterns@.len() && pattern_matches(
                path,
                #[trigger] self.privacy_config.exclude_patterns@[i]@,
            )
    }

    /// What the walk keeps of a regular file at `path` of `size` bytes.
    pub open spec fn kept_kind(&self, path: Seq<char>, size: u64) -> Option<FileType> {
        if self.excluded(path) || size > self.privacy_config.max_file_size || kind_of_path(path)
            == FileType::Archive {
            None
        } else {
            Some(kind_of_path(path))
        }
    }

    /// A walker that applies `privacy_config`.
    pub fn new(privacy_config: PrivacyConfig) -> (r: FileWalker)
        ensures
            r.privacy_config == privacy_config,
    {
        FileWalker { privacy_config }
    }

    /// Whether `path` matches the exclusion pattern `pattern`.
    pub fn matches_pattern(&self, path: &str, pattern: &str) -> (r: bool)
        ensures
            r == pattern_matches(path@, pattern@),
    {
        let p = chars_of(path);
        let pat = chars_of(pattern);
        let dstar_slash = chars_of("**/");
        let dstar = chars_of("**");
        let star = chars_of("*");
        if starts_with(&pat, &dstar_slash) {
            proof {
                reveal_strlit("**/");
            }
            let rest_str = pattern.substring_char(3, pat.len());
            let rest = chars_of(rest_str);
            if starts_with(&rest, &star) {
                proof {
                    reveal_strlit("*");
                }
                let tail = chars_of(rest_str.substring_char(1, rest.len()));
                ends_with(&p, &tail)
            } else {
                let mut framed_path = String::from_str("/");
                framed_path.append(path);
                framed_path.append("/");
                let mut segment = String::from_str("/");
                segment.append(rest_str);
                segment.append("/");
                contains(&chars_of(framed_path.as_str()), &chars_of(segment.as_str()))
            }
        } else if starts_with(&pat, &dstar) {
            proof {
                reveal_strlit("**");
            }
            let tail = chars_of(pattern.substring_char(2, pat.len()));
            ends_with(&p, &tail)
        } else {
            contains(&p, &pat)
        }
    }

    /// Whether `path` is excluded by one of the configured patterns.
    pub fn is_excluded(&self, path: &str) -> (r: bool)
        ensures
            r == self.excluded(path@),
    {
        let pats = &self.privacy_config.exclude_patterns;
        let mut i: usize = 0;
        while i < pats.len()
            invariant
                i <= pats@.len(),
                pats == &self.privacy_config.exclude_patterns,
                forall|k: int| 0 <= k < i ==> !pattern_matches(path@, #[trigger] pats@[k]@),
            decreases pats@.len() - i,
        {
            if self.matches_pattern(path, pats[i].as_str()) {
                return true;
            }
            i = i + 1;
        }
        false
    }

    /// The kind of the file at `path`, from its extension.
    pub fn detect_file_type(&self, path: &str) -> (r: FileType)
        ensures
            r == kind_of_path(path@),
    {
        match extension(path) {
            Some(e) => FileType::from_extension(e.as_str()),
            None => FileType::Unknown,
        }
    }

    /// The entry that the walk emits for a regular file at `path` of `size`
    /// bytes, or `None` where the file is excluded, too large or an archive.
    pub fn accept_entry(&self, path: &str, size: u64) -> (r: Option<DiscoveredFile>)
        ensures
            match r {
                Some(d) => self.kept_kind(path@, size) == Some(d.file_type) && d.path@ == path@
                    && d.size == size,
                None => self.kept_kind(path@, size) is None,
            },
    {
        if self.is_excluded(path) {
            return None;
        }
        if size > self.privacy_config.max_file_size {
            return None;
        }
        let file_type = self.detect_file_type(path);
        if file_type == FileType::Archive {
            return None;
        }
        Some(DiscoveredFile { path: String::from_str(path), file_type, size })
    }

    /// Whether the traversal honours the ignore file called `name`.
    pub fn respects_ignore_file(&self, name: &str) -> (r: bool)
        ensures
            r == views(self.privacy_config.respect_ignore_files@).contains(name@),
    {
        self.privacy_config.respects(name)
    }
}

} // verus!
