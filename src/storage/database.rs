//! The metadata/content store: one record per path, each with an identifier
//! that stays the same across updates, and at most one content record per file.
use vstd::prelude::*;

use crate::error::Error;
use crate::extractors::ExtractedContent;
use crate::types::{FileId, FileMetadata, FileType};

verus! {

/// Aggregate figures about the indexed files.
#[derive(Debug)]
pub struct IndexStats {
    pub total_files: i64,
    pub total_size: i64,
    pub by_type: Vec<(String, i64)>,
}

/// File records and their content, keyed by path and by identifier.
pub struct Database {
    files: Vec<FileMetadata>,
    contents: Vec<(FileId, ExtractedContent)>,
    next_id: FileId,
}

/// Position of the record with path `p` in `rows`, if any.
pub open spec fn path_index(rows: Seq<FileMetadata>, p: Seq<char>) -> Option<int> {
    if exists|i: int| 0 <= i < rows.len() && rows[i].path@ == p {
        Some(choose|i: int| 0 <= i < rows.len() && rows[i].path@ == p)
    } else {
        None
    }
}

/// Position of the record with identifier `id` in `rows`, if any.
pub open spec fn id_index(rows: Seq<FileMetadata>, id: FileId) -> Option<int> {
    if exists|i: int| 0 <= i < rows.len() && rows[i].id == id {
        Some(choose|i: int| 0 <= i < rows.len() && rows[i].id == id)
    } else {
        None
    }
}

/// Position of the content record of `id` in `rows`, if any.
pub open spec fn content_index(rows: Seq<(FileId, ExtractedContent)>, id: FileId) -> Option<int> {
    if exists|i: int| 0 <= i < rows.len() && rows[i].0 == id {
        Some(choose|i: int| 0 <= i < rows.len() && rows[i].0 == id)
    } else {
        None
    }
}

/// The record `f` after an upsert of `meta` at its path: identifier, path
/// and creation time stay, every other column is taken from `meta`.
pub open spec fn updated_record(f: FileMetadata, meta: FileMetadata) -> FileMetadata {
    FileMetadata {
        id: f.id,
        path: f.path,
        filename: meta.filename,
        file_type: meta.file_type,
        mime_type: meta.mime_type,
        size: meta.size,
        hash: meta.hash,
        created_at: f.created_at,
        modified_at: meta.modified_at,
        indexed_at: meta.indexed_at,
    }
}

/// The record inserted for `meta` under the identifier `id`.
pub open spec fn new_record(meta: FileMetadata, id: FileId) -> FileMetadata {
    FileMetadata { id, ..meta }
}

impl Database {
    /// The file records, in order of insertion.
    pub closed spec fn rows(&self) -> Seq<FileMetadata> {
        self.files@
    }

    /// The content records, in order of insertion.
    pub closed spec fn content_rows(&self) -> Seq<(FileId, ExtractedContent)> {
        self.contents@
    }

    /// The identifier the next new record receives.
    pub closed spec fn next_file_id(&self) -> FileId {
        self.next_id
    }

    /// Paths and identifiers are unique, identifiers are positive and below
    /// the next one, and every content record belongs to a file record.
    pub open spec fn wf(&self) -> bool {
        let rows = self.rows();
        let cs = self.content_rows();
        &&& 1 <= self.next_file_id()
        &&& rows.len() < self.next_file_id()
        &&& forall|i: int| 0 <= i < rows.len() ==> 1 <= #[trigger] rows[i].id < self.next_file_id()
        &&& forall|i: int, j: int|
            #![trigger rows[i], rows[j]]
            0 <= i < rows.len() && 0 <= j < rows.len() && i != j ==> rows[i].id != rows[j].id
                && rows[i].path@ != rows[j].path@
        &&& forall|i: int, j: int|
            0 <= i < cs.len() && 0 <= j < cs.len() && i != j ==> #[trigger] cs[i].0
                != #[trigger] cs[j].0
        &&& forall|i: int| 0 <= i < cs.len() ==> (#[trigger] id_index(rows, cs[i].0)) is Some
    }

    /// The record stored for path `p`, if any.
    pub open spec fn file_at(&self, p: Seq<char>) -> Option<FileMetadata> {
        match path_index(self.rows(), p) {
            Some(i) => Some(self.rows()[i]),
            None => None,
        }
    }

    /// The record stored with identifier `id`, if any.
    pub open spec fn file_with_id(&self, id: FileId) -> Option<FileMetadata> {
        match id_index(self.rows(), id) {
            Some(i) => Some(self.rows()[i]),
            None => None,
        }
    }

    /// The content stored for identifier `id`, if any.
    pub open spec fn content_of(&self, id: FileId) -> Option<ExtractedContent> {
        match content_index(self.content_rows(), id) {
            Some(i) => Some(self.content_rows()[i].1),
            None => None,
        }
    }

    /// `new` and `r` are what upserting `meta` into `old` gives: the record at
    /// `meta`'s path is updated in place and keeps its identifier, or a new
    /// record is appended under the next identifier; content is untouched.
    pub open spec fn upserted(
        old: Database,
        meta: FileMetadata,
        new: Database,
        r: Result<FileId, Error>,
    ) -> bool {
        &&& new.content_rows() == old.content_rows()
        &&& match path_index(old.rows(), meta.path@) {
            Some(i) => r == Ok::<FileId, Error>(old.rows()[i].id) && new.rows() == old.rows().update(
                i,
                updated_record(old.rows()[i], meta),
            ) && new.next_file_id() == old.next_file_id(),
            None => if old.next_file_id() == i64::MAX {
                r is Err && r->Err_0 is Database && new == old
            } else {
                r == Ok::<FileId, Error>(old.next_file_id()) && new.rows() == old.rows().push(
                    new_record(meta, old.next_file_id()),
                ) && new.next_file_id() == old.next_file_id() + 1
            },
        }
    }

    /// `new` and `r` are what storing `content` for `id` in `old` gives: the
    /// content record of `id` is replaced or appended, and a store without a
    /// file `id` refuses it and stays as it was.
    pub open spec fn content_stored(
        old: Database,
        id: FileId,
        content: ExtractedContent,
        new: Database,
        r: Result<(), Error>,
    ) -> bool {
        &&& new.rows() == old.rows()
        &&& new.next_file_id() == old.next_file_id()
        &&& match id_index(old.rows(), id) {
            None => r is Err && r->Err_0 is Database && new.content_rows() == old.content_rows(),
            Some(_) => r is Ok && match content_index(old.content_rows(), id) {
                Some(j) => new.content_rows() == old.content_rows().update(j, (id, content)),
                None => new.content_rows() == old.content_rows().push((id, content)),
            },
        }
    }

    /// `new` is what deleting the record at path `p` from `old` gives: the
    /// record and its content record are gone, the rest stays.
    pub open spec fn deleted(old: Database, p: Seq<char>, new: Database) -> bool {
        &&& new.next_file_id() == old.next_file_id()
        &&& match path_index(old.rows(), p) {
            None => new.rows() == old.rows() && new.content_rows() == old.content_rows(),
            Some(i) => new.rows() == old.rows().remove(i) && match content_index(
                old.content_rows(),
                old.rows()[i].id,
            ) {
                Some(j) => new.content_rows() == old.content_rows().remove(j),
                None => new.content_rows() == old.content_rows(),
            },
        }
    }
}

proof fn lemma_path_index_at(rows: Seq<FileMetadata>, p: Seq<char>, i: int)
    requires
        0 <= i < rows.len(),
        rows[i].path@ == p,
        forall|a: int, b: int|
            #![trigger rows[a], rows[b]]
            0 <= a < rows.len() && 0 <= b < rows.len() && a != b ==> rows[a].id != rows[b].id
                && rows[a].path@ != rows[b].path@,
    ensures
        path_index(rows, p) == Some(i),
{
    assert(exists|c: int| 0 <= c < rows.len() && rows[c].path@ == p);
    let c = choose|c: int| 0 <= c < rows.len() && rows[c].path@ == p;
    if c != i {
        assert(rows[c].id != rows[i].id && rows[c].path@ != rows[i].path@);
    }
}

proof fn lemma_id_index_at(rows: Seq<FileMetadata>, id: FileId, i: int)
    requires
        0 <= i < rows.len(),
        rows[i].id == id,
        forall|a: int, b: int|
            #![trigger rows[a], rows[b]]
            0 <= a < rows.len() && 0 <= b < rows.len() && a != b ==> rows[a].id != rows[b].id
                && rows[a].path@ != rows[b].path@,
    ensures
        id_index(rows, id) == Some(i),
{
    let c = choose|c: int| 0 <= c < rows.len() && rows[c].id == id;
    if c != i {
        assert(rows[c].id != rows[i].id && rows[c].path@ != rows[i].path@);
    }
}

pub proof fn lemma_content_index_at(cs: Seq<(FileId, ExtractedContent)>, id: FileId, i: int)
    requires
        0 <= i < cs.len(),
        cs[i].0 == id,
        forall|a: int, b: int|
            0 <= a < cs.len() && 0 <= b < cs.len() && a != b ==> #[trigger] cs[a].0
                != #[trigger] cs[b].0,
    ensures
        content_index(cs, id) == Some(i),
{
    let c = choose|c: int| 0 <= c < cs.len() && cs[c].0 == id;
    if c != i {
        assert(cs[c].0 != cs[i].0);
    }
}

/// A copy of an optional string.
pub fn clone_opt(o: &Option<String>) -> (r: Option<String>)
    ensures
        r == *o,
{
    match o {
        Some(s) => Some(s.clone()),
        None => None,
    }
}

/// A copy of extracted content.
fn clone_content(c: &ExtractedContent) -> (r: ExtractedContent)
    ensures
        r == *c,
{
    ExtractedContent {
        text: c.text.clone(),
        word_count: c.word_count,
        language: clone_opt(&c.language),
    }
}

impl Database {
    /// An empty store.
    pub fn new() -> (r: Database)
        ensures
            r.wf(),
            r.rows().len() == 0,
            r.content_rows().len() == 0,
            r.next_file_id() == 1,
    {
        Database { files: Vec::new(), contents: Vec::new(), next_id: 1 }
    }

    /// The file records, in order of insertion.
    pub fn files(&self) -> (r: &Vec<FileMetadata>)
        ensures
            r@ == self.rows(),
    {
        &self.files
    }

    /// The content records, each with the identifier of its file.
    pub fn contents(&self) -> (r: &Vec<(FileId, ExtractedContent)>)
        ensures
            r@ == self.content_rows(),
    {
        &self.contents
    }

    /// Position of the record with path `path`.
    fn find_path(&self, path: &str) -> (r: Option<usize>)
        requires
            self.wf(),
        ensures
            match r {
                Some(i) => path_index(self.rows(), path@) == Some(i as int),
                None => path_index(self.rows(), path@) is None,
            },
    {
        let p = crate::chars::chars_of(path);
        let mut i: usize = 0;
        while i < self.files.len()
            invariant
                self.wf(),
                p@ == path@,
                i <= self.files@.len(),
                forall|j: int| 0 <= j < i ==> self.files@[j].path@ != path@,
            decreases self.files@.len() - i,
        {
            let q = crate::chars::chars_of(self.files[i].path.as_str());
            if crate::chars::seq_eq(&q, &p) {
                proof {
                    lemma_path_index_at(self.rows(), path@, i as int);
                }
                return Some(i);
            }
            i = i + 1;
        }
        None
    }

    /// Position of the record with identifier `id`.
    fn find_id(&self, id: FileId) -> (r: Option<usize>)
        requires
            self.wf(),
        ensures
            match r {
                Some(i) => id_index(self.rows(), id) == Some(i as int),
                None => id_index(self.rows(), id) is None,
            },
    {
        let mut i: usize = 0;
        while i < self.files.len()
            invariant
                self.wf(),
                i <= self.files@.len(),
                forall|j: int| 0 <= j < i ==> self.files@[j].id != id,
            decreases self.files@.len() - i,
        {
            if self.files[i].id == id {
                proof {
                    lemma_id_index_at(self.rows(), id, i as int);
                }
                return Some(i);
            }
            i = i + 1;
        }
        None
    }

    /// Position of the content record of `id`.
    fn find_content(&self, id: FileId) -> (r: Option<usize>)
        requires
            self.wf(),
        ensures
            match r {
                Some(i) => content_index(self.content_rows(), id) == Some(i as int),
                None => content_index(self.content_rows(), id) is None,
            },
    {
        let mut i: usize = 0;
        while i < self.contents.len()
            invariant
                self.wf(),
                i <= self.contents@.len(),
                forall|j: int| 0 <= j < i ==> self.contents@[j].0 != id,
            decreases self.contents@.len() - i,
        {
            if self.contents[i].0 == id {
                proof {
                    lemma_content_index_at(self.content_rows(), id, i as int);
                }
                return Some(i);
            }
            i = i + 1;
        }
        None
    }

    /// Inserts the record of `metadata`, or updates the record at its path;
    /// returns the record's identifier, which an update keeps.
    pub fn upsert_file(&mut self, metadata: &FileMetadata) -> (r: Result<FileId, Error>)
        requires
            old(self).wf(),
        ensures
            final(self).wf(),
            Database::upserted(*old(self), *metadata, *final(self), r),
    {
        match self.find_path(metadata.path.as_str()) {
            Some(i) => {
                let id = self.files[i].id;
                let rec = FileMetadata {
                    id,
                    path: self.files[i].path.clone(),
                    filename: metadata.filename.clone(),
                    file_type: metadata.file_type,
                    mime_type: clone_opt(&metadata.mime_type),
                    size: metadata.size,
                    hash: metadata.hash.clone(),
                    created_at: self.files[i].created_at,
                    modified_at: metadata.modified_at,
                    indexed_at: metadata.indexed_at,
                };
                let ghost old_rows = self.files@;
                self.files[i] = rec;
                proof {
                    assert(self.files@ == old_rows.update(i as int, rec));
                    assert forall|c: int| 0 <= c < self.contents@.len() implies (#[trigger] id_index(
                        self.files@,
                        self.contents@[c].0,
                    )) is Some by {
                        let j = id_index(old_rows, self.contents@[c].0)->0;
                        assert(self.files@[j].id == old_rows[j].id);
                    }
                }
                Ok(id)
            },
            None => {
                if self.next_id == i64::MAX {
                    return Err(Error::Database(String::from_str("file identifiers exhausted")));
                }
                let id = self.next_id;
                let mut rec = metadata.duplicate();
                rec.id = id;
                let ghost old_rows = self.files@;
                self.files.push(rec);
                self.next_id = id + 1;
                proof {
                    assert(rec == new_record(*metadata, id));
                    assert forall|j: int| 0 <= j < old_rows.len() implies old_rows[j].path@
                        != metadata.path@ by {
                        if old_rows[j].path@ == metadata.path@ {
                            assert(exists|i: int|
                                0 <= i < old_rows.len() && old_rows[i].path@ == metadata.path@);
                        }
                    }
                    assert forall|c: int| 0 <= c < self.contents@.len() implies (#[trigger] id_index(
                        self.files@,
                        self.contents@[c].0,
                    )) is Some by {
                        let j = id_index(old_rows, self.contents@[c].0)->0;
                        assert(self.files@[j] == old_rows[j]);
                    }
                }
                Ok(id)
            },
        }
    }

    /// Stores `content` for the file `file_id`, replacing earlier content;
    /// a store without that file refuses it.
    pub fn upsert_content(&mut self, file_id: FileId, content: &ExtractedContent) -> (r: Result<
        (),
        Error,
    >)
        requires
            old(self).wf(),
        ensures
            final(self).wf(),
            Database::content_stored(*old(self), file_id, *content, *final(self), r),
    {
        if self.find_id(file_id).is_none() {
            return Err(Error::Database(String::from_str("FOREIGN KEY constraint failed")));
        }
        let c = clone_content(content);
        let ghost old_cs = self.contents@;
        match self.find_content(file_id) {
            Some(j) => {
                self.contents[j] = (file_id, c);
                proof {
                    assert(self.contents@ == old_cs.update(j as int, (file_id, *content)));
                    assert forall|a: int| 0 <= a < self.contents@.len() implies (#[trigger] id_index(
                        self.files@,
                        self.contents@[a].0,
                    )) is Some by {
                        if a != j {
                            assert(self.contents@[a] == old_cs[a]);
                        }
                    }
                }
            },
            None => {
                self.contents.push((file_id, c));
                proof {
                    assert forall|a: int| 0 <= a < old_cs.len() implies old_cs[a].0 != file_id by {
                        if old_cs[a].0 == file_id {
                            assert(exists|i: int| 0 <= i < old_cs.len() && old_cs[i].0 == file_id);
                        }
                    }
                    assert forall|a: int| 0 <= a < self.contents@.len() implies (#[trigger] id_index(
                        self.files@,
                        self.contents@[a].0,
                    )) is Some by {
                        if a < old_cs.len() {
                            assert(self.contents@[a] == old_cs[a]);
                        }
                    }
                }
            },
        }
        Ok(())
    }

    /// The record with identifier `file_id`, if any.
    pub fn get_file(&self, file_id: FileId) -> (r: Option<FileMetadata>)
        requires
            self.wf(),
        ensures
            r == self.file_with_id(file_id),
    {
        match self.find_id(file_id) {
            Some(i) => Some(self.files[i].duplicate()),
            None => None,
        }
    }

    /// The record at `path`, if any.
    pub fn get_file_by_path(&self, path: &str) -> (r: Option<FileMetadata>)
        requires
            self.wf(),
        ensures
            r == self.file_at(path@),
    {
        match self.find_path(path) {
            Some(i) => Some(self.files[i].duplicate()),
            None => None,
        }
    }

    /// The content stored for `file_id`, if any.
    pub fn get_content(&self, file_id: FileId) -> (r: Option<ExtractedContent>)
        requires
            self.wf(),
        ensures
            r == self.content_of(file_id),
    {
        match self.find_content(file_id) {
            Some(j) => Some(clone_content(&self.contents[j].1)),
            None => None,
        }
    }

    /// Whether the file at `path` must be indexed again: it has no record,
    /// or its stored hash differs from `current_hash`.
    pub fn needs_reindex(&self, path: &str, current_hash: &str) -> (r: bool)
        requires
            self.wf(),
        ensures
            r == match self.file_at(path@) {
                None => true,
                Some(f) => f.hash@ != current_hash@,
            },
    {
        match self.find_path(path) {
            Some(i) => {
                let stored = crate::chars::chars_of(self.files[i].hash.as_str());
                let current = crate::chars::chars_of(current_hash);
                !crate::chars::seq_eq(&stored, &current)
            },
            None => true,
        }
    }

    /// Number of file records.
    pub fn count_files(&self) -> (r: i64)
        requires
            self.wf(),
        ensures
            r == self.rows().len(),
    {
        self.files.len() as i64
    }

    /// Removes the record at `path` together with its content record.
    pub fn delete_file(&mut self, path: &str)
        requires
            old(self).wf(),
        ensures
            final(self).wf(),
            Database::deleted(*old(self), path@, *final(self)),
    {
        let ghost old_rows = self.files@;
        let ghost old_cs = self.contents@;
        match self.find_path(path) {
            Some(i) => {
                let id = self.files[i].id;
                self.files.remove(i);
                let found = self.find_content_in(id);
                match found {
                    Some(j) => {
                        self.contents.remove(j);
                    },
                    None => {},
                }
                proof {
                    assert forall|a: int, b: int|
                        #![trigger self.files@[a], self.files@[b]]
                        0 <= a < self.files@.len() && 0 <= b < self.files@.len() && a != b
                            implies self.files@[a].id != self.files@[b].id && self.files@[a].path@
                        != self.files@[b].path@ by {
                        let a0 = if a < i {
                            a
                        } else {
                            a + 1
                        };
                        let b0 = if b < i {
                            b
                        } else {
                            b + 1
                        };
                        assert(self.files@[a] == old_rows[a0]);
                        assert(self.files@[b] == old_rows[b0]);
                    }
                    assert forall|c: int| 0 <= c < self.contents@.len() implies (#[trigger] id_index(
                        self.files@,
                        self.contents@[c].0,
                    )) is Some by {
                        let c0 = match found {
                            Some(j) => if c < j {
                                c
                            } else {
                                c + 1
                            },
                            None => c,
                        };
                        assert(self.contents@[c] == old_cs[c0]);
                        let k = id_index(old_rows, old_cs[c0].0)->0;
                        assert(old_rows[k].id == old_cs[c0].0);
                        assert(k != i);
                        let k1 = if k < i {
                            k
                        } else {
                            k - 1
                        };
                        assert(self.files@[k1].id == old_cs[c0].0);
                    }
                    assert forall|c: int| 0 <= c < self.files@.len() implies 1
                        <= #[trigger] self.files@[c].id < self.next_id by {
                        let c0 = if c < i {
                            c
                        } else {
                            c + 1
                        };
                        assert(self.files@[c] == old_rows[c0]);
                    }
                    assert forall|a: int, b: int|
                        0 <= a < self.contents@.len() && 0 <= b < self.contents@.len() && a != b
                            implies #[trigger] self.contents@[a].0 != #[trigger] self.contents@[b].0 by {
                        match found {
                            Some(j) => {
                                let a0 = if a < j {
                                    a
                                } else {
                                    a + 1
                                };
                                let b0 = if b < j {
                                    b
                                } else {
                                    b + 1
                                };
                                assert(self.contents@[a] == old_cs[a0]);
                                assert(self.contents@[b] == old_cs[b0]);
                            },
                            None => {},
                        }
                    }
                }
            },
            None => {},
        }
    }

    /// Position of the content record of `id`, for a store whose file
    /// records may already lack `id`.
    fn find_content_in(&self, id: FileId) -> (r: Option<usize>)
        requires
            forall|a: int, b: int|
                0 <= a < self.contents@.len() && 0 <= b < self.contents@.len() && a != b
                    ==> #[trigger] self.contents@[a].0 != #[trigger] self.contents@[b].0,
        ensures
            match r {
                Some(i) => content_index(self.content_rows(), id) == Some(i as int) && i
                    < self.contents@.len(),
                None => content_index(self.content_rows(), id) is None,
            },
    {
        let mut i: usize = 0;
        while i < self.contents.len()
            invariant
                i <= self.contents@.len(),
                forall|j: int| 0 <= j < i ==> self.contents@[j].0 != id,
                forall|a: int, b: int|
                    0 <= a < self.contents@.len() && 0 <= b < self.contents@.len() && a != b
                        ==> #[trigger] self.contents@[a].0 != #[trigger] self.contents@[b].0,
            decreases self.contents@.len() - i,
        {
            if self.contents[i].0 == id {
                proof {
                    lemma_content_index_at(self.content_rows(), id, i as int);
                }
                return Some(i);
            }
            i = i + 1;
        }
        None
    }

    /// Adds a record read back from durable storage, keeping its identifier;
    /// refused where the identifier or the path is taken, or the identifier
    /// is not positive or is the largest one.
    pub fn restore_file(&mut self, record: &FileMetadata) -> (r: Result<(), Error>)
        requires
            old(self).wf(),
        ensures
            final(self).wf(),
            final(self).content_rows() == old(self).content_rows(),
            r is Ok <==> (1 <= record.id < i64::MAX && old(self).file_with_id(record.id) is None
                && old(self).file_at(record.path@) is None && old(self).rows().len() + 1
                < i64::MAX),
            r is Ok ==> final(self).rows() == old(self).rows().push(*record),
            r is Err ==> *final(self) == *old(self) && r->Err_0 is Database,
    {
        if record.id < 1 || record.id == i64::MAX || self.files.len() as u64 >= 9223372036854775806u64 {
            return Err(Error::Database(String::from_str("invalid stored file record")));
        }
        if self.find_id(record.id).is_some() || self.find_path(record.path.as_str()).is_some() {
            return Err(Error::Database(String::from_str("UNIQUE constraint failed")));
        }
        let ghost old_rows = self.files@;
        let rec = record.duplicate();
        self.files.push(rec);
        if self.next_id <= record.id {
            self.next_id = record.id + 1;
        }
        if self.next_id <= self.files.len() as i64 {
            self.next_id = self.files.len() as i64 + 1;
        }
        proof {
            assert forall|j: int| 0 <= j < old_rows.len() implies old_rows[j].path@ != record.path@
                && old_rows[j].id != record.id by {
                if old_rows[j].path@ == record.path@ {
                    assert(exists|i: int| 0 <= i < old_rows.len() && old_rows[i].path@ == record.path@);
                }
                if old_rows[j].id == record.id {
                    assert(exists|i: int| 0 <= i < old_rows.len() && old_rows[i].id == record.id);
                }
            }
            assert forall|c: int| 0 <= c < self.contents@.len() implies (#[trigger] id_index(
                self.files@,
                self.contents@[c].0,
            )) is Some by {
                let j = id_index(old_rows, self.contents@[c].0)->0;
                assert(self.files@[j] == old_rows[j]);
            }
        }
        Ok(())
    }

    /// Statistics over the records: how many, their total size, and how
    /// many of each kind present, kinds in the order of their stored names;
    /// a total size beyond `i64` is refused.
    pub fn get_stats(&self) -> (r: Result<IndexStats, Error>)
        requires
            self.wf(),
        ensures
            match r {
                Ok(st) => st.total_files == self.rows().len() && st.total_size == size_sum(
                    self.rows(),
                    self.rows().len() as int,
                ) && stat_views(st.by_type@) == type_counts(self.rows(), 9),
                Err(e) => e is Database && size_sum(self.rows(), self.rows().len() as int)
                    > i64::MAX,
            },
    {
        let mut counts: Vec<u64> = Vec::new();
        let mut m: usize = 0;
        while m < 9
            invariant
                m <= 9,
                counts@.len() == m,
                forall|q: int| 0 <= q < m ==> counts@[q] == 0,
            decreases 9 - m,
        {
            counts.push(0);
            m = m + 1;
        }
        let mut total: u128 = 0;
        let mut i: usize = 0;
        while i < self.files.len()
            invariant
                self.wf(),
                i <= self.files@.len(),
                counts@.len() == 9,
                forall|q: int|
                    0 <= q < 9 ==> #[trigger] counts@[q] == count_kind(
                        self.files@,
                        stats_order()[q],
                        i as int,
                    ),
                total == size_sum(self.files@, i as int),
                total <= i * 0xffff_ffff_ffff_ffff,
            decreases self.files@.len() - i,
        {
            proof {
                assert forall|q: int| 0 <= q < 9 implies count_kind(
                    self.files@,
                    stats_order()[q],
                    i as int,
                ) <= i by {
                    lemma_count_bounded(self.files@, stats_order()[q], i as int);
                }
            }
            let slot = stats_slot(self.files[i].file_type);
            let c = counts[slot];
            counts.set(slot, c + 1);
            total = total + self.files[i].size as u128;
            i = i + 1;
        }
        if total > i64::MAX as u128 {
            return Err(Error::Database(String::from_str("integer overflow")));
        }
        let mut by_type: Vec<(String, i64)> = Vec::new();
        let mut q: usize = 0;
        while q < 9
            invariant
                self.wf(),
                q <= 9,
                counts@.len() == 9,
                forall|z: int|
                    0 <= z < 9 ==> #[trigger] counts@[z] == count_kind(
                        self.files@,
                        stats_order()[z],
                        self.files@.len() as int,
                    ),
                stat_views(by_type@) == type_counts(self.files@, q as int),
            decreases 9 - q,
        {
            let k = stats_kind(q);
            proof {
                lemma_count_bounded(self.files@, k, self.files@.len() as int);
            }
            let ghost before = by_type@;
            if counts[q] > 0 {
                by_type.push((String::from_str(k.as_str()), counts[q] as i64));
                assert(stat_views(by_type@) =~= stat_views(before).push(
                    (k.tag(), counts@[q as int] as int),
                ));
            }
            assert(type_counts(self.files@, q + 1) =~= stat_views(by_type@));
            q = q + 1;
        }
        Ok(IndexStats { total_files: self.files.len() as i64, total_size: total as i64, by_type })
    }
}

/// Number of the first `n` records that are of kind `k`.
pub open spec fn count_kind(rows: Seq<FileMetadata>, k: FileType, n: int) -> nat
    decreases n,
{
    if n <= 0 {
        0
    } else {
        count_kind(rows, k, n - 1) + if rows[n - 1].file_type == k {
            1nat
        } else {
            0nat
        }
    }
}

/// Total size of the first `n` records.
pub open spec fn size_sum(rows: Seq<FileMetadata>, n: int) -> int
    decreases n,
{
    if n <= 0 {
        0
    } else {
        size_sum(rows, n - 1) + rows[n - 1].size
    }
}

/// The kinds in the order of their stored names.
pub open spec fn stats_order() -> Seq<FileType> {
    seq![
        FileType::Archive,
        FileType::Code,
        FileType::Docx,
        FileType::Image,
        FileType::Markdown,
        FileType::Pdf,
        FileType::Text,
        FileType::Unknown,
        FileType::Xlsx,
    ]
}

/// Stored name and count of each of the first `m` kinds of [`stats_order`]
/// that some record has.
pub open spec fn type_counts(rows: Seq<FileMetadata>, m: int) -> Seq<(Seq<char>, int)>
    decreases m,
{
    if m <= 0 {
        Seq::empty()
    } else {
        let k = stats_order()[m - 1];
        let c = count_kind(rows, k, rows.len() as int);
        type_counts(rows, m - 1) + if c > 0 {
            seq![(k.tag(), c as int)]
        } else {
            Seq::empty()
        }
    }
}

/// The views of per-kind counts.
pub open spec fn stat_views(v: Seq<(String, i64)>) -> Seq<(Seq<char>, int)> {
    v.map_values(|e: (String, i64)| (e.0@, e.1 as int))
}

proof fn lemma_count_bounded(rows: Seq<FileMetadata>, k: FileType, n: int)
    requires
        0 <= n,
    ensures
        count_kind(rows, k, n) <= n,
    decreases n,
{
    if n > 0 {
        lemma_count_bounded(rows, k, n - 1);
    }
}

/// Position of `k` in [`stats_order`].
fn stats_slot(k: FileType) -> (r: usize)
    ensures
        r < 9,
        stats_order()[r as int] == k,
{
    match k {
        FileType::Archive => 0,
        FileType::Code => 1,
        FileType::Docx => 2,
        FileType::Image => 3,
        FileType::Markdown => 4,
        FileType::Pdf => 5,
        FileType::Text => 6,
        FileType::Unknown => 7,
        FileType::Xlsx => 8,
    }
}

/// The kind at position `q` of [`stats_order`].
fn stats_kind(q: usize) -> (r: FileType)
    requires
        q < 9,
    ensures
        r == stats_order()[q as int],
{
    if q == 0 {
        FileType::Archive
    } else if q == 1 {
        FileType::Code
    } else if q == 2 {
        FileType::Docx
    } else if q == 3 {
        FileType::Image
    } else if q == 4 {
        FileType::Markdown
    } else if q == 5 {
        FileType::Pdf
    } else if q == 6 {
        FileType::Text
    } else if q == 7 {
        FileType::Unknown
    } else {
        FileType::Xlsx
    }
}

/// After a successful upsert of `meta`, the store holds a record at its
/// path, with the returned identifier.
pub proof fn lemma_upserted_holds_path(
    old: Database,
    meta: FileMetadata,
    new: Database,
    r: Result<FileId, Error>,
)
    requires
        old.wf(),
        new.wf(),
        Database::upserted(old, meta, new, r),
        r is Ok,
    ensures
        new.file_at(meta.path@) is Some,
        new.file_at(meta.path@)->0.id == r->Ok_0,
        new.file_at(meta.path@)->0.file_type == meta.file_type,
        (old.file_at(meta.path@) is Some && old.file_at(meta.path@)->0.file_type == meta.file_type)
            ==> forall|k: FileType|
            #[trigger] count_kind(new.rows(), k, new.rows().len() as int) == count_kind(
                old.rows(),
                k,
                old.rows().len() as int,
            ),
{
    match path_index(old.rows(), meta.path@) {
        Some(i) => {
            assert(exists|c: int| 0 <= c < old.rows().len() && old.rows()[c].path@ == meta.path@);
            assert(new.rows()[i].path@ == meta.path@);
            lemma_path_index_at(new.rows(), meta.path@, i);
            if old.rows()[i].file_type == meta.file_type {
                assert forall|k: FileType| #[trigger] count_kind(new.rows(), k, new.rows().len() as int)
                    == count_kind(old.rows(), k, old.rows().len() as int) by {
                    lemma_count_update(
                        old.rows(),
                        i,
                        updated_record(old.rows()[i], meta),
                        k,
                        old.rows().len() as int,
                    );
                }
            }
        },
        None => {
            let i = old.rows().len() as int;
            assert(new.rows()[i] == new_record(meta, old.next_file_id()));
            lemma_path_index_at(new.rows(), meta.path@, i);
        },
    }
}

/// Indexing one path twice yields one identifier: once an upsert at a path
/// has succeeded, a second upsert at that path succeeds too, returns the
/// same identifier, and leaves the number of records and the content as
/// they were.
pub proof fn lemma_stable_ids(
    db0: Database,
    m1: FileMetadata,
    db1: Database,
    r1: Result<FileId, Error>,
    m2: FileMetadata,
    db2: Database,
    r2: Result<FileId, Error>,
)
    requires
        db0.wf(),
        db1.wf(),
        Database::upserted(db0, m1, db1, r1),
        r1 is Ok,
        Database::upserted(db1, m2, db2, r2),
        m2.path@ == m1.path@,
    ensures
        r2 == r1,
        db2.rows().len() == db1.rows().len(),
        db2.content_rows() == db1.content_rows(),
{
    lemma_upserted_holds_path(db0, m1, db1, r1);
}

/// Deleting the record at a path deletes its content: afterwards neither a
/// record at that path nor content under its identifier remains.
pub proof fn lemma_cascade_delete(db0: Database, p: Seq<char>, db1: Database)
    requires
        db0.wf(),
        Database::deleted(db0, p, db1),
        db0.file_at(p) is Some,
    ensures
        db1.content_of(db0.file_at(p)->0.id) is None,
        db1.file_at(p) is None,
{
    let i = path_index(db0.rows(), p)->0;
    let id = db0.rows()[i].id;
    assert(exists|c: int| 0 <= c < db0.rows().len() && db0.rows()[c].path@ == p);
    if exists|c: int| 0 <= c < db1.rows().len() && db1.rows()[c].path@ == p {
        let c = choose|c: int| 0 <= c < db1.rows().len() && db1.rows()[c].path@ == p;
        let c0 = if c < i {
            c
        } else {
            c + 1
        };
        assert(db1.rows()[c] == db0.rows()[c0]);
        assert(db0.rows()[c0].path@ != db0.rows()[i].path@);
    }
    let cs0 = db0.content_rows();
    if exists|c: int| 0 <= c < db1.content_rows().len() && db1.content_rows()[c].0 == id {
        let c = choose|c: int| 0 <= c < db1.content_rows().len() && db1.content_rows()[c].0 == id;
        match content_index(cs0, id) {
            Some(j) => {
                let c0 = if c < j {
                    c
                } else {
                    c + 1
                };
                assert(db1.content_rows()[c] == cs0[c0]);
                assert(exists|e: int| 0 <= e < cs0.len() && cs0[e].0 == id);
                assert(cs0[j].0 == id);
                assert(cs0[c0].0 != cs0[j].0);
            },
            None => {
                assert(db1.content_rows()[c] == cs0[c]);
            },
        }
    }
}

proof fn lemma_path_index_found(rows: Seq<FileMetadata>, p: Seq<char>)
    requires
        path_index(rows, p) is Some,
    ensures
        0 <= path_index(rows, p)->0 < rows.len(),
        rows[path_index(rows, p)->0].path@ == p,
{
}

proof fn lemma_content_index_found(cs: Seq<(FileId, ExtractedContent)>, id: FileId)
    requires
        content_index(cs, id) is Some,
    ensures
        0 <= content_index(cs, id)->0 < cs.len(),
        cs[content_index(cs, id)->0].0 == id,
{
}

/// A successful upsert leaves the records at every other path, and all
/// content, as they were.
pub proof fn lemma_upserted_frame(
    old: Database,
    meta: FileMetadata,
    new: Database,
    r: Result<FileId, Error>,
)
    requires
        old.wf(),
        new.wf(),
        Database::upserted(old, meta, new, r),
        r is Ok,
    ensures
        forall|p: Seq<char>| p != meta.path@ ==> #[trigger] new.file_at(p) == old.file_at(p),
        forall|id: FileId| #[trigger] new.content_of(id) == old.content_of(id),
{
    let o = old.rows();
    let n = new.rows();
    assert forall|p: Seq<char>| p != meta.path@ implies #[trigger] new.file_at(p) == old.file_at(p) by {
        match path_index(o, p) {
            Some(k) => {
                lemma_path_index_found(o, p);
                if let Some(i) = path_index(o, meta.path@) {
                    lemma_path_index_found(o, meta.path@);
                }
                assert(n[k] == o[k]);
                lemma_path_index_at(n, p, k);
            },
            None => {
                if exists|k: int| 0 <= k < n.len() && n[k].path@ == p {
                    let k = choose|k: int| 0 <= k < n.len() && n[k].path@ == p;
                    if let Some(i) = path_index(o, meta.path@) {
                        lemma_path_index_found(o, meta.path@);
                        if k != i {
                            assert(n[k] == o[k]);
                        }
                    } else {
                        if k < o.len() {
                            assert(n[k] == o[k]);
                        }
                    }
                    assert(exists|c: int| 0 <= c < o.len() && o[c].path@ == p);
                }
            },
        }
    }
}

/// Storing content for `id` leaves the content of every other file as it was.
pub proof fn lemma_content_stored_frame(
    old: Database,
    id: FileId,
    content: ExtractedContent,
    new: Database,
    r: Result<(), Error>,
)
    requires
        old.wf(),
        new.wf(),
        Database::content_stored(old, id, content, new, r),
    ensures
        forall|other: FileId| other != id ==> #[trigger] new.content_of(other) == old.content_of(other),
        forall|p: Seq<char>| #[trigger] new.file_at(p) == old.file_at(p),
{
    let o = old.content_rows();
    let n = new.content_rows();
    assert forall|other: FileId| other != id implies #[trigger] new.content_of(other) == old.content_of(
        other,
    ) by {
        match content_index(o, other) {
            Some(k) => {
                lemma_content_index_found(o, other);
                assert(n[k] == o[k]);
                lemma_content_index_at(n, other, k);
            },
            None => {
                if exists|k: int| 0 <= k < n.len() && n[k].0 == other {
                    let k = choose|k: int| 0 <= k < n.len() && n[k].0 == other;
                    if k < o.len() {
                        assert(n[k] == o[k] || o[k].0 == id);
                        assert(exists|c: int| 0 <= c < o.len() && o[c].0 == other);
                    }
                }
            },
        }
    }
}

/// Records at two different paths have different identifiers.
pub proof fn lemma_distinct_paths_distinct_ids(db: Database, p1: Seq<char>, p2: Seq<char>)
    requires
        db.wf(),
        db.file_at(p1) is Some,
        db.file_at(p2) is Some,
        p1 != p2,
    ensures
        db.file_at(p1)->0.id != db.file_at(p2)->0.id,
{
    lemma_path_index_found(db.rows(), p1);
    lemma_path_index_found(db.rows(), p2);
    let i1 = path_index(db.rows(), p1)->0;
    let i2 = path_index(db.rows(), p2)->0;
    assert(db.rows()[i1].id != db.rows()[i2].id);
}

/// Replacing a record by one of the same kind leaves every kind's count as it was.
pub proof fn lemma_count_update(rows: Seq<FileMetadata>, i: int, x: FileMetadata, k: FileType, n: int)
    requires
        0 <= i < rows.len(),
        rows[i].file_type == x.file_type,
        0 <= n <= rows.len(),
    ensures
        count_kind(rows.update(i, x), k, n) == count_kind(rows, k, n),
    decreases n,
{
    if n > 0 {
        lemma_count_update(rows, i, x, k, n - 1);
    }
}

/// Record sequences with the same count of every kind have the same
/// per-kind statistics.
pub proof fn lemma_type_counts_eq(a: Seq<FileMetadata>, b: Seq<FileMetadata>, m: int)
    requires
        forall|k: FileType| #[trigger] count_kind(a, k, a.len() as int) == count_kind(b, k, b.len() as int),
    ensures
        type_counts(a, m) == type_counts(b, m),
    decreases m,
{
    if m > 0 {
        lemma_type_counts_eq(a, b, m - 1);
        let k = stats_order()[m - 1];
        assert(count_kind(a, k, a.len() as int) == count_kind(b, k, b.len() as int));
    }
}

/// An upsert at a path that holds a record returns that record's
/// identifier, whatever other operations ran since the record was stored;
/// by `lemma_upserted_frame`, `lemma_content_stored_frame` and
/// `lemma_deleted_frame`, upserts and deletes at other paths and content
/// stores leave that record in place.
pub proof fn lemma_upsert_returns_recorded_id(
    db: Database,
    m: FileMetadata,
    new: Database,
    r: Result<FileId, Error>,
)
    requires
        db.wf(),
        Database::upserted(db, m, new, r),
        db.file_at(m.path@) is Some,
    ensures
        r == Ok::<FileId, Error>(db.file_at(m.path@)->0.id),
        new.rows().len() == db.rows().len(),
{
}

/// Deleting the record at one path leaves the records at every other path
/// as they were.
pub proof fn lemma_deleted_frame(old: Database, q: Seq<char>, new: Database)
    requires
        old.wf(),
        new.wf(),
        Database::deleted(old, q, new),
    ensures
        forall|p: Seq<char>| p != q ==> #[trigger] new.file_at(p) == old.file_at(p),
{
    let o = old.rows();
    let n = new.rows();
    assert forall|p: Seq<char>| p != q implies #[trigger] new.file_at(p) == old.file_at(p) by {
        match path_index(o, q) {
            None => {},
            Some(i) => {
                lemma_path_index_found(o, q);
                match path_index(o, p) {
                    Some(k) => {
                        lemma_path_index_found(o, p);
                        let k1 = if k < i { k } else { k - 1 };
                        assert(n[k1] == o[k]);
                        lemma_path_index_at(n, p, k1);
                    },
                    None => {
                        if exists|c: int| 0 <= c < n.len() && n[c].path@ == p {
                            let c = choose|c: int| 0 <= c < n.len() && n[c].path@ == p;
                            let c0 = if c < i { c } else { c + 1 };
                            assert(n[c] == o[c0]);
                            assert(exists|d: int| 0 <= d < o.len() && o[d].path@ == p);
                        }
                    },
                }
            },
        }
    }
}

} // verus!
