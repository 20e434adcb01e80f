//! The indexing pipeline's decisions for one discovered file: what is
//! stored in the metadata/content store and the vector stores, and what is
//! handed to the full-text index.
use vstd::prelude::*;

use crate::error::Error;
use crate::extractors::ExtractedContent;
use crate::storage::database::{
    lemma_content_index_at, lemma_content_stored_frame, lemma_upserted_frame,
    lemma_upserted_holds_path,
};
use crate::storage::vector_store::{entry_index, lemma_entry_index_at};
use crate::storage::{Database, VectorStore};
use crate::storage::database::{count_kind, lemma_type_counts_eq, type_counts};
use crate::types::{FileId, FileMetadata, FileType};

verus! {

/// Number of leading characters of a text that the text encoder is given.
pub const EMBEDDING_PREFIX_CHARS: usize = 5000;

/// A document for the full-text index.
#[derive(Debug, Clone, PartialEq, Eq)]
pub struct Document {
    pub file_id: FileId,
    pub path: String,
    pub filename: String,
    pub content: String,
}

/// What extraction and embedding produced for one discovered file.
#[derive(Debug)]
pub enum Extracted<V> {
    /// A file with text: its content or the extractor's error, and, where a
    /// text encoder ran, the embedding of its leading characters or the
    /// encoder's error.
    Text(Result<ExtractedContent, Error>, Option<Result<Vec<V>, Error>>),
    /// An image: `None` without an image encoder, else its embedding or the
    /// encoder's error.
    Image(Option<Result<Vec<V>, Error>>),
}

/// The outcome of indexing one file.
#[derive(Debug)]
pub struct IndexedFile {
    /// The file's identifier in every store.
    pub file_id: FileId,
    /// What the full-text index is to hold for the file, if anything.
    pub document: Option<Document>,
    /// Whether the file counts as indexed; otherwise it counts as skipped.
    pub indexed: bool,
}

/// The text of the full-text document of an image named `name`.
pub open spec fn image_document_text(name: Seq<char>) -> Seq<char> {
    "image file: "@ + name
}

/// The leading characters of `text` that the text encoder is given.
pub open spec fn embedding_prefix(text: Seq<char>) -> Seq<char> {
    if text.len() <= EMBEDDING_PREFIX_CHARS {
        text
    } else {
        text.subrange(0, EMBEDDING_PREFIX_CHARS as int)
    }
}

/// The leading characters of `text` that the text encoder is given: at
/// most [`EMBEDDING_PREFIX_CHARS`] of them.
pub fn embedding_input(text: &str) -> (r: &str)
    ensures
        r@ == embedding_prefix(text@),
{
    let n = text.unicode_len();
    if n <= EMBEDDING_PREFIX_CHARS {
        assert(text@.subrange(0, n as int) =~= text@);
        text.substring_char(0, n)
    } else {
        text.substring_char(0, EMBEDDING_PREFIX_CHARS)
    }
}

/// The content that `ex` has for the content store, if any.
pub open spec fn content_part<V>(ex: Extracted<V>) -> Option<ExtractedContent> {
    match ex {
        Extracted::Text(Ok(c), _) => Some(c),
        _ => None,
    }
}

/// The text embedding that `ex` has for the text vector store, if any.
pub open spec fn text_vector_part<V>(ex: Extracted<V>) -> Option<Seq<V>> {
    match ex {
        Extracted::Text(Ok(_), Some(Ok(v))) => Some(v@),
        _ => None,
    }
}

/// The text encoder's error that `ex` carries for extracted content, if any.
pub open spec fn text_embedding_error<V>(ex: Extracted<V>) -> Option<Error> {
    match ex {
        Extracted::Text(Ok(_), Some(Err(e))) => Some(e),
        _ => None,
    }
}

/// The image embedding that `ex` has for the image vector store, if any.
pub open spec fn image_vector_part<V>(ex: Extracted<V>) -> Option<Seq<V>> {
    match ex {
        Extracted::Image(Some(Ok(v))) => Some(v@),
        _ => None,
    }
}

/// Whether the file of `ex` counts as indexed.
pub open spec fn counts_indexed<V>(ex: Extracted<V>) -> bool {
    match ex {
        Extracted::Text(Ok(_), _) => true,
        Extracted::Text(Err(_), _) => false,
        Extracted::Image(None) => true,
        Extracted::Image(Some(Ok(_))) => true,
        Extracted::Image(Some(Err(_))) => false,
    }
}

/// One more than `n` when `grows` holds.
pub open spec fn grown(n: nat, grows: bool) -> nat {
    if grows {
        n + 1
    } else {
        n
    }
}

/// A vector store after storing `v` for `id`, where `v` is given: the
/// vector is there, and the store grew by one only if `id` had none.
pub open spec fn vector_stored<V>(
    old: VectorStore<V>,
    new: VectorStore<V>,
    id: FileId,
    v: Option<Seq<V>>,
) -> bool {
    &&& new.dim() == old.dim()
    &&& forall|other: FileId| other != id ==> #[trigger] new.vector_of(other) == old.vector_of(other)
    &&& match v {
        Some(x) => new.vector_of(id) == Some(x) && new.entries().len() == grown(
            old.entries().len(),
            old.vector_of(id) is None,
        ),
        None => new.entries() == old.entries(),
    }
}

/// Whether `v`, where given, has the dimension of `store`.
pub open spec fn fits<V>(store: VectorStore<V>, v: Option<Seq<V>>) -> bool {
    match v {
        Some(x) => x.len() == store.dim(),
        None => true,
    }
}

proof fn lemma_vector_upserted<V>(
    old: VectorStore<V>,
    new: VectorStore<V>,
    id: FileId,
    v: Seq<V>,
)
    requires
        old.wf(),
        new.wf(),
        match entry_index(old.entries(), id) {
            Some(i) => new.entries() == old.entries().update(i, (id, v)),
            None => new.entries() == old.entries().push((id, v)),
        },
    ensures
        new.vector_of(id) == Some(v),
        new.entries().len() == grown(old.entries().len(), old.vector_of(id) is None),
        forall|other: FileId| other != id ==> #[trigger] new.vector_of(other) == old.vector_of(other),
{
    let o = old.entries();
    let n = new.entries();
    assert forall|other: FileId| other != id implies #[trigger] new.vector_of(other) == old.vector_of(
        other,
    ) by {
        match entry_index(o, other) {
            Some(k) => {
                crate::storage::vector_store::lemma_entry_index_found(o, other);
                if entry_index(o, id) is Some {
                    crate::storage::vector_store::lemma_entry_index_found(o, id);
                }
                assert(n[k] == o[k]);
                lemma_entry_index_at(n, other, k);
            },
            None => {
                assert forall|j: int| 0 <= j < n.len() implies n[j].0 != other by {
                    if entry_index(o, id) is Some {
                        crate::storage::vector_store::lemma_entry_index_found(o, id);
                    }
                    if j < o.len() && n[j] == o[j] && o[j].0 == other {
                        lemma_entry_index_at(o, other, j);
                    }
                }
                crate::storage::vector_store::lemma_entry_index_none(n, other);
            },
        }
    }
    match entry_index(old.entries(), id) {
        Some(i) => {
            crate::storage::vector_store::lemma_entry_index_found(old.entries(), id);
            lemma_entry_index_at(new.entries(), id, i);
        },
        None => {
            lemma_entry_index_at(new.entries(), id, old.entries().len() as int);
        },
    }
}

/// Stores `v` for `id` in `store`, where `v` is given.
fn store_vector<V>(store: &mut VectorStore<V>, id: FileId, v: Option<Vec<V>>) -> (r: Result<
    (),
    Error,
>)
    requires
        old(store).wf(),
    ensures
        final(store).wf(),
        r is Ok <==> fits(*old(store), opt_seq(v)),
        r is Ok ==> vector_stored(*old(store), *final(store), id, opt_seq(v)),
        r is Err ==> *final(store) == *old(store),
{
    match v {
        Some(x) => {
            let ghost xv = x@;
            let res = store.upsert(id, x);
            proof {
                if res is Ok {
                    lemma_vector_upserted(*old(store), *store, id, xv);
                }
            }
            res
        },
        None => Ok(()),
    }
}

/// The view of an optional vector.
pub open spec fn opt_seq<V>(v: Option<Vec<V>>) -> Option<Seq<V>> {
    match v {
        Some(x) => Some(x@),
        None => None,
    }
}

/// The metadata/content store `db1` is what indexing the file of `meta`
/// with the extraction results `ex` makes of `db0`, the file's record having
/// identifier `id`: the record is upserted, its content stored where `ex`
/// has content, and every other record and content is left as it was.
pub open spec fn stored_with<V>(
    db0: Database,
    meta: FileMetadata,
    ex: Extracted<V>,
    db1: Database,
    id: FileId,
) -> bool {
    &&& db1.file_at(meta.path@) is Some
    &&& db1.file_at(meta.path@)->0.id == id
    &&& (db0.file_at(meta.path@) matches Some(g) ==> g.id == id)
    &&& db1.file_at(meta.path@)->0.file_type == meta.file_type
    &&& (db0.file_at(meta.path@) is Some && db0.file_at(meta.path@)->0.file_type == meta.file_type)
        ==> forall|k: FileType|
        #[trigger] count_kind(db1.rows(), k, db1.rows().len() as int) == count_kind(
            db0.rows(),
            k,
            db0.rows().len() as int,
        )
    &&& forall|p: Seq<char>| p != meta.path@ ==> #[trigger] db1.file_at(p) == db0.file_at(p)
    &&& forall|other: FileId|
        other != id ==> #[trigger] db1.content_of(other) == db0.content_of(other)
    &&& db1.rows().len() == grown(db0.rows().len(), db0.file_at(meta.path@) is None)
    &&& match content_part(ex) {
        Some(c) => db1.content_of(id) == Some(c) && db1.content_rows().len() == grown(
            db0.content_rows().len(),
            db0.content_of(id) is None,
        ),
        None => db1.content_rows() == db0.content_rows(),
    }
}

/// `r` and the stores `db1`, `tv1`, `iv1` are what indexing the file of
/// `meta` with the extraction results `ex` makes of `db0`, `tv0`, `iv0`.
pub open spec fn indexed_with<V>(
    db0: Database,
    tv0: VectorStore<V>,
    iv0: VectorStore<V>,
    meta: FileMetadata,
    ex: Extracted<V>,
    db1: Database,
    tv1: VectorStore<V>,
    iv1: VectorStore<V>,
    r: Result<IndexedFile, Error>,
) -> bool {
    &&& (r is Ok <==> (db0.file_at(meta.path@) is Some || db0.next_file_id() < i64::MAX) && fits(
        tv0,
        text_vector_part(ex),
    ) && fits(iv0, image_vector_part(ex)) && text_embedding_error(ex) is None)
    &&& ((db0.file_at(meta.path@) is Some || db0.next_file_id() < i64::MAX) && text_embedding_error(
        ex,
    ) is Some ==> r == Err::<IndexedFile, Error>(text_embedding_error(ex)->0))
    &&& r is Err ==> {
        &&& tv1 == tv0
        &&& iv1 == iv0
        &&& (db0.file_at(meta.path@) is None && db0.next_file_id() == i64::MAX ==> db1 == db0)
        &&& (db0.file_at(meta.path@) is Some || db0.next_file_id() < i64::MAX) ==> stored_with(
            db0,
            meta,
            ex,
            db1,
            db1.file_at(meta.path@)->0.id,
        )
    }
    &&& r is Ok ==> ({
            let f = r->Ok_0;
            &&& stored_with(db0, meta, ex, db1, f.file_id)
            &&& vector_stored(
                tv0,
                tv1,
                f.file_id,
                text_vector_part(ex),
            )
            &&& vector_stored(
                iv0,
                iv1,
                f.file_id,
                image_vector_part(ex),
            )
            &&& f.indexed == counts_indexed(ex)
            &&& (f.document is Some <==> counts_indexed(ex))
            &&& match f.document {
                Some(d) => d.file_id == f.file_id && d.path@ == meta.path@ && d.filename@
                    == meta.filename@ && match content_part(ex) {
                    Some(c) => d.content@ == c.text@,
                    None => d.content@ == image_document_text(meta.filename@),
                },
                None => !counts_indexed(ex),
            }
        })
}

/// Indexes one discovered file: upserts its metadata, stores its content
/// and embeddings, and returns the full-text document to write, if any.
/// A file whose content could not be extracted, or whose image could not
/// be embedded, keeps its metadata record and counts as skipped.
pub fn index_file<V>(
    db: &mut Database,
    text_vectors: &mut VectorStore<V>,
    image_vectors: &mut VectorStore<V>,
    metadata: &FileMetadata,
    extracted: Extracted<V>,
) -> (r: Result<IndexedFile, Error>)
    requires
        old(db).wf(),
        old(text_vectors).wf(),
        old(image_vectors).wf(),
    ensures
        final(db).wf(),
        final(text_vectors).wf(),
        final(image_vectors).wf(),
        indexed_with(
            *old(db),
            *old(text_vectors),
            *old(image_vectors),
            *metadata,
            extracted,
            *final(db),
            *final(text_vectors),
            *final(image_vectors),
            r,
        ),
{
    let ghost db0 = *db;
    let file_id = db.upsert_file(metadata)?;
    proof {
        lemma_upserted_holds_path(db0, *metadata, *db, Ok::<FileId, Error>(file_id));
        lemma_upserted_frame(db0, *metadata, *db, Ok::<FileId, Error>(file_id));
        if db0.file_at(metadata.path@) is Some {
            assert(exists|c: int|
                0 <= c < db0.rows().len() && db0.rows()[c].path@ == metadata.path@);
        }
    }
    let document_for = |content: String| -> (d: Document)
        ensures
            d.file_id == file_id,
            d.path@ == metadata.path@,
            d.filename@ == metadata.filename@,
            d.content@ == content@,
        {
            Document {
                file_id,
                path: metadata.path.clone(),
                filename: metadata.filename.clone(),
                content,
            }
        };
    match extracted {
        Extracted::Image(embedding) => {
            let mut text = String::from_str("image file: ");
            text.append(metadata.filename.as_str());
            match embedding {
                None => Ok(
                    IndexedFile { file_id, document: Some(document_for(text)), indexed: true },
                ),
                Some(Ok(v)) => {
                    store_vector(image_vectors, file_id, Some(v))?;
                    Ok(IndexedFile { file_id, document: Some(document_for(text)), indexed: true })
                },
                Some(Err(_)) => Ok(IndexedFile { file_id, document: None, indexed: false }),
            }
        },
        Extracted::Text(Ok(content), embedding) => {
            let ghost db1 = *db;
            let stored = db.upsert_content(file_id, &content);
            proof {
                lemma_content_stored_frame(db1, file_id, content, *db, stored);
                assert(stored is Ok);
                let cs = db1.content_rows();
                match crate::storage::database::content_index(cs, file_id) {
                    Some(j) => {
                        assert(exists|e: int| 0 <= e < cs.len() && cs[e].0 == file_id);
                        lemma_content_index_at(db.content_rows(), file_id, j);
                    },
                    None => {
                        lemma_content_index_at(db.content_rows(), file_id, cs.len() as int);
                    },
                }
            }
            let vector = match embedding {
                Some(Ok(v)) => Some(v),
                Some(Err(e)) => {
                    return Err(e);
                },
                None => None,
            };
            store_vector(text_vectors, file_id, vector)?;
            let text = content.text;
            Ok(IndexedFile { file_id, document: Some(document_for(text)), indexed: true })
        },
        Extracted::Text(Err(_), _) => Ok(IndexedFile { file_id, document: None, indexed: false }),
    }
}

/// Indexing is idempotent: indexing a file a second time with the same
/// metadata and the same extraction results succeeds, returns the same
/// identifier, and leaves the numbers of file records, content records and
/// vectors in both vector stores as they were.
pub proof fn lemma_reindex_idempotent<V>(
    db0: Database,
    tv0: VectorStore<V>,
    iv0: VectorStore<V>,
    meta: FileMetadata,
    ex: Extracted<V>,
    db1: Database,
    tv1: VectorStore<V>,
    iv1: VectorStore<V>,
    r1: Result<IndexedFile, Error>,
    db2: Database,
    tv2: VectorStore<V>,
    iv2: VectorStore<V>,
    r2: Result<IndexedFile, Error>,
)
    requires
        indexed_with(db0, tv0, iv0, meta, ex, db1, tv1, iv1, r1),
        r1 is Ok,
        indexed_with(db1, tv1, iv1, meta, ex, db2, tv2, iv2, r2),
    ensures
        r2 is Ok,
        r2->Ok_0.file_id == r1->Ok_0.file_id,
        db2.rows().len() == db1.rows().len(),
        db2.content_rows().len() == db1.content_rows().len(),
        tv2.entries().len() == tv1.entries().len(),
        iv2.entries().len() == iv1.entries().len(),
{
}

/// `dbs`, `tvs`, `ivs` and `rs` are the states and results of a run that
/// indexes `items` one after the other, each state well formed.
pub open spec fn indexing_run<V>(
    dbs: Seq<Database>,
    tvs: Seq<VectorStore<V>>,
    ivs: Seq<VectorStore<V>>,
    items: Seq<(FileMetadata, Extracted<V>)>,
    rs: Seq<Result<IndexedFile, Error>>,
) -> bool {
    &&& dbs.len() == items.len() + 1
    &&& tvs.len() == items.len() + 1
    &&& ivs.len() == items.len() + 1
    &&& rs.len() == items.len()
    &&& forall|k: int| 0 <= k <= items.len() ==> (#[trigger] dbs[k]).wf() && tvs[k].wf() && ivs[k].wf()
    &&& forall|k: int|
        0 <= k < items.len() ==> #[trigger] indexed_with(
            dbs[k],
            tvs[k],
            ivs[k],
            items[k].0,
            items[k].1,
            dbs[k + 1],
            tvs[k + 1],
            ivs[k + 1],
            rs[k],
        )
}

/// No two items have the same path.
pub open spec fn distinct_paths<V>(items: Seq<(FileMetadata, Extracted<V>)>) -> bool {
    forall|a: int, b: int|
        0 <= a < items.len() && 0 <= b < items.len() && a != b ==> (#[trigger] items[a]).0.path@
            != (#[trigger] items[b]).0.path@
}

/// Every result of the run is a success.
pub open spec fn all_ok(rs: Seq<Result<IndexedFile, Error>>) -> bool {
    forall|k: int| 0 <= k < rs.len() ==> (#[trigger] rs[k]) is Ok
}

/// The stores hold the record of `item` under `id`, with its content and
/// vectors where the item has them.
pub open spec fn holds_item<V>(
    db: Database,
    tv: VectorStore<V>,
    iv: VectorStore<V>,
    item: (FileMetadata, Extracted<V>),
    id: FileId,
) -> bool {
    &&& db.file_at(item.0.path@) is Some
    &&& db.file_at(item.0.path@)->0.id == id
    &&& db.file_at(item.0.path@)->0.file_type == item.0.file_type
    &&& content_part(item.1) is Some ==> db.content_of(id) is Some
    &&& text_vector_part(item.1) is Some ==> tv.vector_of(id) is Some
    &&& image_vector_part(item.1) is Some ==> iv.vector_of(id) is Some
}

proof fn lemma_step_keeps<V>(
    db0: Database,
    tv0: VectorStore<V>,
    iv0: VectorStore<V>,
    item: (FileMetadata, Extracted<V>),
    db1: Database,
    tv1: VectorStore<V>,
    iv1: VectorStore<V>,
    r: Result<IndexedFile, Error>,
    other: (FileMetadata, Extracted<V>),
    id: FileId,
)
    requires
        db1.wf(),
        indexed_with(db0, tv0, iv0, item.0, item.1, db1, tv1, iv1, r),
        r is Ok,
        holds_item(db0, tv0, iv0, other, id),
        other.0.path@ != item.0.path@,
    ensures
        holds_item(db1, tv1, iv1, other, id),
{
    assert(db1.file_at(other.0.path@) == db0.file_at(other.0.path@));
    crate::storage::database::lemma_distinct_paths_distinct_ids(db1, other.0.path@, item.0.path@);
    assert(db1.content_of(id) == db0.content_of(id));
    assert(tv1.vector_of(id) == tv0.vector_of(id));
    assert(iv1.vector_of(id) == iv0.vector_of(id));
}

proof fn lemma_run_holds<V>(
    dbs: Seq<Database>,
    tvs: Seq<VectorStore<V>>,
    ivs: Seq<VectorStore<V>>,
    items: Seq<(FileMetadata, Extracted<V>)>,
    rs: Seq<Result<IndexedFile, Error>>,
    j: int,
    m: int,
)
    requires
        indexing_run(dbs, tvs, ivs, items, rs),
        all_ok(rs),
        distinct_paths(items),
        0 <= j < m <= items.len(),
    ensures
        holds_item(dbs[m], tvs[m], ivs[m], items[j], rs[j]->Ok_0.file_id),
        tvs[m].dim() == tvs[0].dim(),
        ivs[m].dim() == ivs[0].dim(),
    decreases m,
{
    let k = m - 1;
    assert(indexed_with(dbs[k], tvs[k], ivs[k], items[k].0, items[k].1, dbs[k + 1], tvs[k + 1], ivs[k + 1], rs[k]));
    assert(rs[k] is Ok);
    assert(dbs[m].wf());
    if k > 0 {
        lemma_run_holds(dbs, tvs, ivs, items, rs, 0, k);
    }
    if j < k {
        lemma_run_holds(dbs, tvs, ivs, items, rs, j, k);
        assert(items[j].0.path@ != items[k].0.path@);
        lemma_step_keeps(dbs[k], tvs[k], ivs[k], items[k], dbs[m], tvs[m], ivs[m], rs[k], items[j], rs[j]->Ok_0.file_id);
    }
}

/// Indexing is idempotent over a whole run: after a run that indexed files
/// of distinct paths successfully, indexing the same files again with the
/// same extraction results succeeds for each, gives each its identifier of
/// the first run, and leaves the numbers of file records, content records
/// and vectors in both vector stores, and the count of each file kind, as
/// the first run left them.
pub proof fn lemma_rerun_idempotent<V>(
    dbs: Seq<Database>,
    tvs: Seq<VectorStore<V>>,
    ivs: Seq<VectorStore<V>>,
    items: Seq<(FileMetadata, Extracted<V>)>,
    rs: Seq<Result<IndexedFile, Error>>,
    dbs2: Seq<Database>,
    tvs2: Seq<VectorStore<V>>,
    ivs2: Seq<VectorStore<V>>,
    rs2: Seq<Result<IndexedFile, Error>>,
)
    requires
        indexing_run(dbs, tvs, ivs, items, rs),
        all_ok(rs),
        distinct_paths(items),
        indexing_run(dbs2, tvs2, ivs2, items, rs2),
        dbs2[0] == dbs[items.len() as int],
        tvs2[0] == tvs[items.len() as int],
        ivs2[0] == ivs[items.len() as int],
    ensures
        all_ok(rs2),
        forall|k: int| 0 <= k < items.len() ==> (#[trigger] rs2[k])->Ok_0.file_id == rs[k]->Ok_0.file_id,
        dbs2[items.len() as int].rows().len() == dbs[items.len() as int].rows().len(),
        dbs2[items.len() as int].content_rows().len() == dbs[items.len() as int].content_rows().len(),
        tvs2[items.len() as int].entries().len() == tvs[items.len() as int].entries().len(),
        ivs2[items.len() as int].entries().len() == ivs[items.len() as int].entries().len(),
        type_counts(dbs2[items.len() as int].rows(), 9) == type_counts(
            dbs[items.len() as int].rows(),
            9,
        ),
{
    let n = items.len() as int;
    lemma_second_run(dbs, tvs, ivs, items, rs, dbs2, tvs2, ivs2, rs2, n);
    lemma_type_counts_eq(dbs2[n].rows(), dbs[n].rows(), 9);
}

proof fn lemma_second_run<V>(
    dbs: Seq<Database>,
    tvs: Seq<VectorStore<V>>,
    ivs: Seq<VectorStore<V>>,
    items: Seq<(FileMetadata, Extracted<V>)>,
    rs: Seq<Result<IndexedFile, Error>>,
    dbs2: Seq<Database>,
    tvs2: Seq<VectorStore<V>>,
    ivs2: Seq<VectorStore<V>>,
    rs2: Seq<Result<IndexedFile, Error>>,
    m: int,
)
    requires
        indexing_run(dbs, tvs, ivs, items, rs),
        all_ok(rs),
        distinct_paths(items),
        indexing_run(dbs2, tvs2, ivs2, items, rs2),
        dbs2[0] == dbs[items.len() as int],
        tvs2[0] == tvs[items.len() as int],
        ivs2[0] == ivs[items.len() as int],
        0 <= m <= items.len(),
    ensures
        forall|k: int| 0 <= k < m ==> (#[trigger] rs2[k]) is Ok && rs2[k]->Ok_0.file_id == rs[k]->Ok_0.file_id,
        forall|j: int|
            0 <= j < items.len() ==> holds_item(dbs2[m], tvs2[m], ivs2[m], #[trigger] items[j], rs[j]->Ok_0.file_id),
        dbs2[m].rows().len() == dbs[items.len() as int].rows().len(),
        dbs2[m].content_rows().len() == dbs[items.len() as int].content_rows().len(),
        tvs2[m].entries().len() == tvs[items.len() as int].entries().len(),
        ivs2[m].entries().len() == ivs[items.len() as int].entries().len(),
        tvs2[m].dim() == tvs[0].dim(),
        ivs2[m].dim() == ivs[0].dim(),
        forall|t: FileType|
            #[trigger] count_kind(dbs2[m].rows(), t, dbs2[m].rows().len() as int) == count_kind(
                dbs[items.len() as int].rows(),
                t,
                dbs[items.len() as int].rows().len() as int,
            ),
    decreases m,
{
    let n = items.len() as int;
    if n > 0 {
        lemma_run_holds(dbs, tvs, ivs, items, rs, 0, n);
    }
    if m == 0 {
        assert forall|j: int| 0 <= j < n implies holds_item(dbs2[0], tvs2[0], ivs2[0], #[trigger] items[j], rs[j]->Ok_0.file_id) by {
            lemma_run_holds(dbs, tvs, ivs, items, rs, j, n);
        }
    } else {
        let k = m - 1;
        lemma_second_run(dbs, tvs, ivs, items, rs, dbs2, tvs2, ivs2, rs2, k);
        let item = items[k];
        let id = rs[k]->Ok_0.file_id;
        assert(rs[k] is Ok);
        assert(indexed_with(dbs[k], tvs[k], ivs[k], item.0, item.1, dbs[k + 1], tvs[k + 1], ivs[k + 1], rs[k]));
        assert(indexed_with(dbs2[k], tvs2[k], ivs2[k], item.0, item.1, dbs2[m], tvs2[m], ivs2[m], rs2[k]));
        assert(dbs2[m].wf());
        assert(holds_item(dbs2[k], tvs2[k], ivs2[k], item, id));
        if k > 0 {
            lemma_run_holds(dbs, tvs, ivs, items, rs, 0, k);
        }
        assert(rs2[k] is Ok);
        assert forall|j: int| 0 <= j < n implies holds_item(dbs2[m], tvs2[m], ivs2[m], #[trigger] items[j], rs[j]->Ok_0.file_id) by {
            if j != k {
                assert(items[j].0.path@ != items[k].0.path@);
                lemma_step_keeps(dbs2[k], tvs2[k], ivs2[k], item, dbs2[m], tvs2[m], ivs2[m], rs2[k], items[j], rs[j]->Ok_0.file_id);
            }
        }
    }
}

} // verus!
