//! Hybrid results: keyword hits alone when there is no semantic ranking,
//! else the fused ranking with each hit's path and name attached.
use vstd::prelude::*;

use crate::chars::{signed_decimal, signed_decimal_of};
use crate::search::rrf::{
    first_rank, hit_ids, is_fusion, pair_ids, reciprocal_rank_fusion, RrfScore, MAX_RANKED,
    WEIGHT_SCALE,
};
use crate::extractors::text::{extract_snippet, snippet_of};
use crate::storage::database::clone_opt;
use crate::storage::Database;
use crate::types::{FileId, SearchResult};

verus! {

/// What a hybrid search returns.
#[derive(Debug)]
pub enum HybridResults<S> {
    /// The keyword hits as ranked by the full-text index.
    KeywordOnly(Vec<SearchResult<S>>),
    /// The fused ranking.
    Fused(Vec<SearchResult<RrfScore>>),
}

/// The identifiers and scores of fused hits.
pub open spec fn fused_view(v: Seq<SearchResult<RrfScore>>) -> Seq<(FileId, RrfScore)> {
    v.map_values(|h: SearchResult<RrfScore>| (h.file_id, h.score))
}

/// The name given to a document that neither the keyword hits nor the
/// store know.
pub open spec fn placeholder_name(id: FileId) -> Seq<char> {
    "file_"@ + signed_decimal_of(id as int)
}

/// `h` carries the payload of document `id`: that of its keyword hit, else
/// the path and name of its stored record, else a placeholder name.
pub open spec fn payload_attached<S>(
    hits: Seq<SearchResult<S>>,
    db: Database,
    id: FileId,
    h: SearchResult<RrfScore>,
) -> bool {
    match first_rank(hit_ids(hits), id) {
        Some(j) => h.path == hits[j].path && h.filename == hits[j].filename && h.snippet
            == hits[j].snippet,
        None => match db.file_with_id(id) {
            Some(f) => h.path == f.path && h.filename == f.filename && h.snippet is None,
            None => h.path@ == placeholder_name(id) && h.filename@ == placeholder_name(id)
                && h.snippet is None,
        },
    }
}

/// The keyword hit of `id`, if any.
fn find_hit<S>(hits: &Vec<SearchResult<S>>, id: FileId) -> (r: Option<usize>)
    ensures
        match r {
            Some(j) => first_rank(hit_ids(hits@), id) == Some(j as int) && j < hits@.len(),
            None => first_rank(hit_ids(hits@), id) is None,
        },
{
    let mut i: usize = 0;
    while i < hits.len()
        invariant
            i <= hits@.len(),
            forall|j: int| 0 <= j < i ==> hit_ids(hits@)[j] != id,
        decreases hits@.len() - i,
    {
        if hits[i].file_id == id {
            proof {
                let k = hit_ids(hits@);
                assert(crate::search::rrf::is_first(k, id, i as int));
                let c = choose|c: int| crate::search::rrf::is_first(k, id, c);
                if c < i {
                    assert(k[c] != id);
                } else if c > i {
                    assert(k[i as int] != id);
                }
            }
            return Some(i);
        }
        i = i + 1;
    }
    None
}

/// Hybrid search results from keyword hits and semantic hits: without
/// semantic hits, the keyword hits cut to `limit`; otherwise their
/// Reciprocal Rank Fusion with keyword weight `keyword_weight` (in
/// millionths), each fused hit carrying its keyword hit's payload, else its
/// stored record's path and name, else a placeholder name.
pub fn hybrid_merge<S, T>(
    keyword_results: Vec<SearchResult<S>>,
    semantic_results: &Vec<(FileId, T)>,
    keyword_weight: u32,
    limit: usize,
    db: &Database,
) -> (r: HybridResults<S>)
    requires
        keyword_weight <= WEIGHT_SCALE,
        keyword_results@.len() <= MAX_RANKED,
        semantic_results@.len() <= MAX_RANKED,
        db.wf(),
    ensures
        semantic_results@.len() == 0 ==> (r matches HybridResults::KeywordOnly(v) && v@
            == keyword_results@.take(
            if limit < keyword_results@.len() {
                limit as int
            } else {
                keyword_results@.len() as int
            },
        )),
        semantic_results@.len() > 0 ==> (r matches HybridResults::Fused(v) && is_fusion(
            hit_ids(keyword_results@),
            pair_ids(semantic_results@),
            keyword_weight as int,
            limit as int,
            fused_view(v@),
        ) && forall|i: int|
            0 <= i < v@.len() ==> payload_attached(
                keyword_results@,
                *db,
                #[trigger] v@[i].file_id,
                v@[i],
            )),
{
    if semantic_results.len() == 0 {
        let mut results = keyword_results;
        results.truncate(limit);
        return HybridResults::KeywordOnly(results);
    }
    let fused = reciprocal_rank_fusion(&keyword_results, semantic_results, keyword_weight, limit);
    let mut out: Vec<SearchResult<RrfScore>> = Vec::new();
    let mut i: usize = 0;
    while i < fused.len()
        invariant
            i <= fused@.len(),
            db.wf(),
            fused_view(out@) == fused@.subrange(0, i as int),
            forall|c: int|
                0 <= c < out@.len() ==> payload_attached(
                    keyword_results@,
                    *db,
                    #[trigger] out@[c].file_id,
                    out@[c],
                ),
        decreases fused@.len() - i,
    {
        let (id, score) = fused[i];
        let hit = match find_hit(&keyword_results, id) {
            Some(j) => SearchResult {
                file_id: id,
                path: keyword_results[j].path.clone(),
                filename: keyword_results[j].filename.clone(),
                score,
                snippet: clone_opt(&keyword_results[j].snippet),
            },
            None => match db.get_file(id) {
                Some(f) => SearchResult {
                    file_id: id,
                    path: f.path,
                    filename: f.filename,
                    score,
                    snippet: None,
                },
                None => {
                    let mut name = String::from_str("file_");
                    let digits = signed_decimal(id);
                    name.append(digits.as_str());
                    SearchResult {
                        file_id: id,
                        path: name.clone(),
                        filename: name,
                        score,
                        snippet: None,
                    }
                },
            },
        };
        let ghost before = out@;
        out.push(hit);
        assert(fused_view(out@) =~= fused_view(before).push((id, score)));
        assert(fused@.subrange(0, i + 1) =~= fused@.subrange(0, i as int).push(fused@[i as int]));
        i = i + 1;
    }
    assert(fused@.subrange(0, i as int) =~= fused@);
    HybridResults::Fused(out)
}

/// Radius, in characters, of the snippets shown with query results.
pub const SNIPPET_RADIUS: usize = 100;

/// The snippet shown for file `file_id` and `query`: cut from its stored
/// content, if the store holds content for it.
pub fn snippet_for(db: &Database, file_id: FileId, query: &str) -> (r: Option<String>)
    requires
        db.wf(),
    ensures
        match db.content_of(file_id) {
            Some(c) => r is Some && r->0@ == snippet_of(c.text@, query@, SNIPPET_RADIUS as int),
            None => r is None,
        },
{
    match db.get_content(file_id) {
        Some(c) => extract_snippet(c.text.as_str(), query, SNIPPET_RADIUS),
        None => None,
    }
}

/// A ranked hit as shown to users: its payload, score, snippet and kind.
#[derive(Debug, Clone)]
pub struct Hit<S> {
    pub file_id: FileId,
    pub filename: String,
    pub path: String,
    pub score: S,
    pub snippet: Option<String>,
    pub file_type: String,
}

/// The kind shown for file `id`: the stored name of its kind, or
/// `"unknown"` when the store has no record of it.
pub open spec fn shown_kind(db: Database, id: FileId) -> Seq<char> {
    match db.file_with_id(id) {
        Some(f) => f.file_type.tag(),
        None => "unknown"@,
    }
}

/// The document hit shown for the ranked hit `hit` of `query`: its kind,
/// and the snippet cut from stored content, else the hit's own snippet.
pub fn document_hit<S>(db: &Database, hit: SearchResult<S>, query: &str) -> (r: Hit<S>)
    requires
        db.wf(),
    ensures
        r.file_id == hit.file_id,
        r.filename == hit.filename,
        r.path == hit.path,
        r.score == hit.score,
        r.file_type@ == shown_kind(*db, hit.file_id),
        match db.content_of(hit.file_id) {
            Some(c) => r.snippet is Some && r.snippet->0@ == snippet_of(
                c.text@,
                query@,
                SNIPPET_RADIUS as int,
            ),
            None => r.snippet == hit.snippet,
        },
{
    let file_type = match db.get_file(hit.file_id) {
        Some(m) => String::from_str(m.file_type.as_str()),
        None => String::from_str("unknown"),
    };
    let snippet = match snippet_for(db, hit.file_id, query) {
        Some(s) => Some(s),
        None => hit.snippet,
    };
    Hit {
        file_id: hit.file_id,
        filename: hit.filename,
        path: hit.path,
        score: hit.score,
        snippet,
        file_type,
    }
}

/// The image hit shown for file `file_id` with similarity `score`: its
/// stored path and name, or nothing when the store has no record of it.
pub fn image_hit<S>(db: &Database, file_id: FileId, score: S) -> (r: Option<Hit<S>>)
    requires
        db.wf(),
    ensures
        match db.file_with_id(file_id) {
            Some(f) => r is Some && r->0.file_id == file_id && r->0.path == f.path
                && r->0.filename == f.filename && r->0.score == score && r->0.snippet is None
                && r->0.file_type@ == "image"@,
            None => r is None,
        },
{
    match db.get_file(file_id) {
        Some(m) => Some(
            Hit {
                file_id,
                filename: m.filename,
                path: m.path,
                score,
                snippet: None,
                file_type: String::from_str("image"),
            },
        ),
        None => None,
    }
}

} // verus!
