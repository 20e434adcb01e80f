//! Reciprocal Rank Fusion of a keyword ranking and a semantic ranking, in
//! exact rational arithmetic.
use vstd::prelude::*;

use crate::types::{FileId, SearchResult};
use vstd::seq_lib::lemma_seq_contains_after_push;

verus! {

/// Weights are given in millionths: a weight of `WEIGHT_SCALE` is 1.
pub const WEIGHT_SCALE: u32 = 1000000;

/// Longest ranking that fusion accepts.
pub const MAX_RANKED: usize = 4294967295;

/// A fused score, the rational `num / (den * WEIGHT_SCALE)`.
#[derive(Debug, Clone, Copy, PartialEq, Eq, Structural)]
pub struct RrfScore {
    pub num: u128,
    pub den: u128,
}

/// `a` is at least `b`.
pub open spec fn score_ge(a: RrfScore, b: RrfScore) -> bool {
    (a.num as int) * (b.den as int) >= (b.num as int) * (a.den as int)
}

/// The bounds within which fused scores stay, so that comparisons fit in 128 bits.
pub open spec fn bounded(a: RrfScore) -> bool {
    a.num < 0x80000000000000 && 0 < a.den < 0x800000000000000000
}

/// `i` is the first position of `id` in `s`.
pub open spec fn is_first(s: Seq<FileId>, id: FileId, i: int) -> bool {
    0 <= i < s.len() && s[i] == id && forall|j: int| 0 <= j < i ==> s[j] != id
}

/// The rank of `id` in `s` (its first position), if it occurs.
pub open spec fn first_rank(s: Seq<FileId>, id: FileId) -> Option<int> {
    if exists|i: int| is_first(s, id, i) {
        Some(choose|i: int| is_first(s, id, i))
    } else {
        None
    }
}

/// The fused score of a document with keyword rank `rk` and semantic rank
/// `rs`: `w / (61 + rk) + (1 - w) / (61 + rs)`, a term for each ranking
/// that holds the document.
pub open spec fn score_from_ranks(w: int, rk: Option<int>, rs: Option<int>) -> RrfScore {
    let sw = WEIGHT_SCALE - w;
    match (rk, rs) {
        (Some(a), Some(b)) => RrfScore {
            num: (w * (61 + b) + sw * (61 + a)) as u128,
            den: ((61 + a) * (61 + b)) as u128,
        },
        (Some(a), None) => RrfScore { num: w as u128, den: (61 + a) as u128 },
        (None, Some(b)) => RrfScore { num: sw as u128, den: (61 + b) as u128 },
        (None, None) => RrfScore { num: 0, den: 1 },
    }
}

/// The fused score of `id` for the keyword ranking `k`, the semantic ranking
/// `s` and the keyword weight `w`.
pub open spec fn rrf_score(k: Seq<FileId>, s: Seq<FileId>, w: int, id: FileId) -> RrfScore {
    score_from_ranks(w, first_rank(k, id), first_rank(s, id))
}

/// The identifiers of keyword hits, in order.
pub open spec fn hit_ids<S>(h: Seq<SearchResult<S>>) -> Seq<FileId> {
    h.map_values(|x: SearchResult<S>| x.file_id)
}

/// The identifiers of ranked pairs, in order.
pub open spec fn pair_ids<T>(v: Seq<(FileId, T)>) -> Seq<FileId> {
    v.map_values(|p: (FileId, T)| p.0)
}

/// Each score is at least every later one.
pub open spec fn sorted_desc(v: Seq<(FileId, RrfScore)>) -> bool {
    forall|a: int, b: int| 0 <= a < b < v.len() ==> score_ge(v[a].1, v[b].1)
}

proof fn lemma_first_unique(s: Seq<FileId>, id: FileId, i: int)
    requires
        is_first(s, id, i),
    ensures
        first_rank(s, id) == Some(i),
{
    let c = choose|c: int| is_first(s, id, c);
    if c < i {
        assert(s[c] != id);
    } else if c > i {
        assert(s[i] != id);
    }
}

proof fn lemma_ge_trans(a: RrfScore, b: RrfScore, c: RrfScore)
    requires
        bounded(a),
        bounded(b),
        bounded(c),
        score_ge(a, b),
        score_ge(b, c),
    ensures
        score_ge(a, c),
{
    let (an, ad, bn, bd, cn, cd) = (
        a.num as int,
        a.den as int,
        b.num as int,
        b.den as int,
        c.num as int,
        c.den as int,
    );
    assert(an * bd * cd >= bn * ad * cd) by (nonlinear_arith)
        requires
            an * bd >= bn * ad,
            cd > 0,
    ;
    assert(bn * cd * ad >= cn * bd * ad) by (nonlinear_arith)
        requires
            bn * cd >= cn * bd,
            ad > 0,
    ;
    assert(an * cd >= cn * ad) by (nonlinear_arith)
        requires
            an * bd * cd >= bn * ad * cd,
            bn * cd * ad >= cn * bd * ad,
            bd > 0,
    ;
}

proof fn lemma_single_rank_order(x: int, a: int, b: int)
    requires
        0 <= x <= WEIGHT_SCALE,
        0 <= a <= b < MAX_RANKED,
    ensures
        score_ge(lone_score(x, a), lone_score(x, b)),
{
    assert(x * (61 + b) >= x * (61 + a)) by (nonlinear_arith)
        requires
            0 <= x,
            a <= b,
    ;
}

/// Whether `a` is at least `b`.
fn score_at_least(a: RrfScore, b: RrfScore) -> (r: bool)
    requires
        bounded(a),
        bounded(b),
    ensures
        r == score_ge(a, b),
{
    assert(a.num * b.den < 0x80000000000000 * 0x800000000000000000) by (nonlinear_arith)
        requires
            a.num < 0x80000000000000,
            b.den < 0x800000000000000000,
    ;
    assert(b.num * a.den < 0x80000000000000 * 0x800000000000000000) by (nonlinear_arith)
        requires
            b.num < 0x80000000000000,
            a.den < 0x800000000000000000,
    ;
    a.num * b.den >= b.num * a.den
}

/// The fused score for the ranks `rk` and `rs`.
fn score_for(w: u32, rk: Option<usize>, rs: Option<usize>) -> (r: RrfScore)
    requires
        w <= WEIGHT_SCALE,
        rk is Some || rs is Some,
        rk matches Some(a) ==> a < MAX_RANKED,
        rs matches Some(b) ==> b < MAX_RANKED,
    ensures
        r == score_from_ranks(
            w as int,
            match rk {
                Some(a) => Some(a as int),
                None => None,
            },
            match rs {
                Some(b) => Some(b as int),
                None => None,
            },
        ),
        bounded(r),
{
    let wk = w as u128;
    let ws = (WEIGHT_SCALE - w) as u128;
    match (rk, rs) {
        (Some(a), Some(b)) => {
            let da = 61 + a as u128;
            let db = 61 + b as u128;
            assert(da * db < 0x800000000000000000) by (nonlinear_arith)
                requires
                    da < 0x100000040,
                    db < 0x100000040,
            ;
            assert(wk * db <= 1000000 * 0x100000040) by (nonlinear_arith)
                requires
                    wk <= 1000000,
                    db < 0x100000040,
            ;
            assert(ws * da <= 1000000 * 0x100000040) by (nonlinear_arith)
                requires
                    ws <= 1000000,
                    da < 0x100000040,
            ;
            let num = wk * db + ws * da;
            assert(num < 0x80000000000000);
            let r = RrfScore { num, den: da * db };
            assert(0 < da * db) by (nonlinear_arith)
                requires
                    da > 0,
                    db > 0,
            ;
            assert(bounded(r));
            r
        },
        (Some(a), None) => RrfScore { num: wk, den: 61 + a as u128 },
        (None, Some(b)) => RrfScore { num: ws, den: 61 + b as u128 },
        (None, None) => RrfScore { num: 0, den: 1 },
    }
}

/// The rank of `id` in `v`, if it occurs.
fn find_rank(v: &Vec<FileId>, id: FileId) -> (r: Option<usize>)
    ensures
        match r {
            Some(i) => first_rank(v@, id) == Some(i as int),
            None => first_rank(v@, id) is None,
        },
{
    let mut i: usize = 0;
    while i < v.len()
        invariant
            i <= v@.len(),
            forall|j: int| 0 <= j < i ==> v@[j] != id,
        decreases v@.len() - i,
    {
        if v[i] == id {
            proof {
                lemma_first_unique(v@, id, i as int);
            }
            return Some(i);
        }
        i = i + 1;
    }
    None
}

/// The distinct identifiers of both rankings, keyword ones first, each in
/// order of first appearance, with their fused scores.
fn collect_candidates(kids: &Vec<FileId>, sids: &Vec<FileId>, w: u32) -> (r: Vec<(FileId, RrfScore)>)
    requires
        w <= WEIGHT_SCALE,
        kids@.len() <= MAX_RANKED,
        sids@.len() <= MAX_RANKED,
    ensures
        pair_ids(r@).no_duplicates(),
        forall|c: int|
            0 <= c < r@.len() ==> #[trigger] r@[c].1 == rrf_score(kids@, sids@, w as int, r@[c].0)
                && bounded(r@[c].1),
        forall|x: FileId| #[trigger] pair_ids(r@).contains(x) <==> (kids@ + sids@).contains(x),
        sids@.len() == 0 && kids@.no_duplicates() ==> pair_ids(r@) == kids@,
        kids@.len() == 0 && sids@.no_duplicates() ==> pair_ids(r@) == sids@,
{
    let ghost k = kids@;
    let ghost s = sids@;
    let mut cands: Vec<(FileId, RrfScore)> = Vec::new();
    let mut i: usize = 0;
    while i < kids.len()
        invariant
            k == kids@,
            s == sids@,
            w <= WEIGHT_SCALE,
            i <= k.len() <= MAX_RANKED,
            s.len() <= MAX_RANKED,
            pair_ids(cands@).no_duplicates(),
            forall|c: int|
                0 <= c < cands@.len() ==> #[trigger] cands@[c].1 == rrf_score(
                    k,
                    s,
                    w as int,
                    cands@[c].0,
                ) && bounded(cands@[c].1),
            forall|x: FileId| #[trigger]
                pair_ids(cands@).contains(x) <==> k.subrange(0, i as int).contains(x),
            k.no_duplicates() ==> pair_ids(cands@) == k.subrange(0, i as int),
        decreases k.len() - i,
    {
        let id = kids[i];
        let rk = find_rank(kids, id);
        let ghost before = cands@;
        if rk == Some(i) {
            let rs = find_rank(sids, id);
            proof {
                if rs is Some {
                    lemma_first_unique(s, id, rs->0 as int);
                }
            }
            let sc = score_for(w, Some(i), rs);
            cands.push((id, sc));
            assert(pair_ids(cands@) =~= pair_ids(before).push(id));
            assert(!k.subrange(0, i as int).contains(id)) by {
                if k.subrange(0, i as int).contains(id) {
                    let j = choose|j: int|
                        0 <= j < i && #[trigger] k.subrange(0, i as int)[j] == id;
                    assert(is_first(k, id, i as int));
                    assert(k[j] == id);
                }
            }
            assert(!pair_ids(before).contains(id));
            assert forall|x: FileId| #[trigger]
                pair_ids(cands@).contains(x) <==> k.subrange(0, i + 1).contains(x) by {
                assert(k.subrange(0, i + 1) =~= k.subrange(0, i as int).push(id));
                lemma_seq_contains_after_push(k.subrange(0, i as int), id, x);
                lemma_seq_contains_after_push(pair_ids(before), id, x);
            }
        } else {
            assert(k.subrange(0, i as int).contains(id)) by {
                if !k.subrange(0, i as int).contains(id) {
                    assert forall|j: int| 0 <= j < i implies k[j] != id by {
                        assert(k.subrange(0, i as int)[j] == k[j]);
                    }
                    assert(is_first(k, id, i as int));
                    lemma_first_unique(k, id, i as int);
                }
            }
            proof {
                if k.no_duplicates() {
                    assert(is_first(k, id, i as int));
                    lemma_first_unique(k, id, i as int);
                }
            }
            assert forall|x: FileId| #[trigger]
                pair_ids(cands@).contains(x) <==> k.subrange(0, i + 1).contains(x) by {
                assert(k.subrange(0, i + 1) =~= k.subrange(0, i as int).push(id));
                lemma_seq_contains_after_push(k.subrange(0, i as int), id, x);
            }
        }
        proof {
            if k.no_duplicates() {
                assert(k.subrange(0, i + 1) =~= k.subrange(0, i as int).push(id));
            }
        }
        i = i + 1;
    }
    assert(k.subrange(0, i as int) =~= k);
    let ghost after_k = cands@;
    let mut j: usize = 0;
    while j < sids.len()
        invariant
            k == kids@,
            s == sids@,
            w <= WEIGHT_SCALE,
            j <= s.len() <= MAX_RANKED,
            k.len() <= MAX_RANKED,
            pair_ids(cands@).no_duplicates(),
            forall|c: int|
                0 <= c < cands@.len() ==> #[trigger] cands@[c].1 == rrf_score(
                    k,
                    s,
                    w as int,
                    cands@[c].0,
                ) && bounded(cands@[c].1),
            forall|x: FileId| #[trigger]
                pair_ids(cands@).contains(x) <==> (k + s.subrange(0, j as int)).contains(x),
            j == 0 ==> cands@ == after_k,
            k.len() == 0 && s.no_duplicates() ==> pair_ids(cands@) == s.subrange(0, j as int),
        decreases s.len() - j,
    {
        let id = sids[j];
        let rs = find_rank(sids, id);
        let rk = find_rank(kids, id);
        let ghost before = cands@;
        if rs == Some(j) && rk.is_none() {
            let sc = score_for(w, None, Some(j));
            cands.push((id, sc));
            assert(pair_ids(cands@) =~= pair_ids(before).push(id));
            assert(!(k + s.subrange(0, j as int)).contains(id)) by {
                if (k + s.subrange(0, j as int)).contains(id) {
                    let c = choose|c: int|
                        0 <= c < k.len() + j && #[trigger] (k + s.subrange(0, j as int))[c] == id;
                    if c < k.len() {
                        assert(k[c] == id);
                        assert(is_first(k, id, c) || exists|e: int| is_first(k, id, e)) by {
                            lemma_exists_first(k, id, c);
                        }
                    } else {
                        assert(s[c - k.len()] == id);
                    }
                }
            }
            assert(!pair_ids(before).contains(id));
            assert forall|x: FileId| #[trigger]
                pair_ids(cands@).contains(x) <==> (k + s.subrange(0, j + 1)).contains(x) by {
                assert(k + s.subrange(0, j + 1) =~= (k + s.subrange(0, j as int)).push(id));
                lemma_seq_contains_after_push(k + s.subrange(0, j as int), id, x);
                lemma_seq_contains_after_push(pair_ids(before), id, x);
            }
        } else {
            assert((k + s.subrange(0, j as int)).contains(id)) by {
                if rk is Some {
                    let c = rk->0 as int;
                    lemma_rank_is_first(k, id);
                    assert((k + s.subrange(0, j as int))[c] == id);
                } else {
                    lemma_exists_first(s, id, j as int);
                    lemma_rank_is_first(s, id);
                    let c = rs->0 as int;
                    assert(c != j);
                    assert(c < j) by {
                        assert(s[j as int] == id);
                    }
                    assert((k + s.subrange(0, j as int))[k.len() + c] == id);
                }
            }
            proof {
                if k.len() == 0 && s.no_duplicates() {
                    assert(is_first(s, id, j as int));
                    lemma_first_unique(s, id, j as int);
                }
            }
            assert forall|x: FileId| #[trigger]
                pair_ids(cands@).contains(x) <==> (k + s.subrange(0, j + 1)).contains(x) by {
                assert(k + s.subrange(0, j + 1) =~= (k + s.subrange(0, j as int)).push(id));
                lemma_seq_contains_after_push(k + s.subrange(0, j as int), id, x);
            }
        }
        proof {
            if k.len() == 0 && s.no_duplicates() {
                assert(s.subrange(0, j + 1) =~= s.subrange(0, j as int).push(id));
            }
        }
        j = j + 1;
    }
    assert(s.subrange(0, j as int) =~= s);
    cands
}

proof fn lemma_exists_first(s: Seq<FileId>, id: FileId, c: int)
    requires
        0 <= c < s.len(),
        s[c] == id,
    ensures
        exists|e: int| is_first(s, id, e),
    decreases c,
{
    if !is_first(s, id, c) {
        let d = choose|d: int| 0 <= d < c && s[d] == id;
        lemma_exists_first(s, id, d);
    }
}

proof fn lemma_rank_is_first(s: Seq<FileId>, id: FileId)
    requires
        first_rank(s, id) is Some,
    ensures
        is_first(s, id, first_rank(s, id)->0),
{
}

proof fn lemma_insert_keeps_order(v: Seq<(FileId, RrfScore)>, p: int, x: (FileId, RrfScore))
    requires
        0 <= p <= v.len(),
        sorted_desc(v),
        forall|q: int| 0 <= q < v.len() ==> bounded(#[trigger] v[q].1),
        bounded(x.1),
        forall|q: int| 0 <= q < p ==> score_ge(#[trigger] v[q].1, x.1),
        p < v.len() ==> !score_ge(v[p].1, x.1),
    ensures
        sorted_desc(v.insert(p, x)),
{
    let w = v.insert(p, x);
    assert forall|a: int, b: int| 0 <= a < b < w.len() implies score_ge(w[a].1, w[b].1) by {
        if b < p {
        } else if b == p {
        } else if a < p {
            assert(w[b] == v[b - 1]);
        } else if a == p {
            assert(w[b] == v[b - 1]);
            assert(score_ge(x.1, v[p].1));
            if b - 1 > p {
                lemma_ge_trans(x.1, v[p].1, v[b - 1].1);
            }
        } else {
            assert(w[a] == v[a - 1]);
            assert(w[b] == v[b - 1]);
        }
    }
}

proof fn lemma_insert_contains<A>(v: Seq<A>, p: int, x: A, y: A)
    requires
        0 <= p <= v.len(),
    ensures
        v.insert(p, x).contains(y) <==> v.contains(y) || y == x,
{
    let w = v.insert(p, x);
    if v.contains(y) {
        let q = choose|q: int| 0 <= q < v.len() && v[q] == y;
        if q < p {
            assert(w[q] == y);
        } else {
            assert(w[q + 1] == y);
        }
    }
    if y == x {
        assert(w[p] == x);
    }
    if w.contains(y) {
        let q = choose|q: int| 0 <= q < w.len() && w[q] == y;
        if q < p {
            assert(v[q] == y);
        } else if q > p {
            assert(v[q - 1] == y);
        }
    }
}

/// `cands` ordered by score, highest first; equal scores keep their order.
fn sort_by_score(cands: &Vec<(FileId, RrfScore)>) -> (r: Vec<(FileId, RrfScore)>)
    requires
        forall|c: int| 0 <= c < cands@.len() ==> bounded(#[trigger] cands@[c].1),
        pair_ids(cands@).no_duplicates(),
    ensures
        r@.len() == cands@.len(),
        sorted_desc(r@),
        forall|x: (FileId, RrfScore)| #[trigger] r@.contains(x) <==> cands@.contains(x),
        pair_ids(r@).no_duplicates(),
        sorted_desc(cands@) ==> r@ == cands@,
{
    let mut out: Vec<(FileId, RrfScore)> = Vec::new();
    let mut i: usize = 0;
    while i < cands.len()
        invariant
            i <= cands@.len(),
            out@.len() == i,
            forall|c: int| 0 <= c < cands@.len() ==> bounded(#[trigger] cands@[c].1),
            pair_ids(cands@).no_duplicates(),
            forall|c: int| 0 <= c < out@.len() ==> bounded(#[trigger] out@[c].1),
            sorted_desc(out@),
            forall|x: (FileId, RrfScore)| #[trigger]
                out@.contains(x) <==> cands@.subrange(0, i as int).contains(x),
            pair_ids(out@).no_duplicates(),
            sorted_desc(cands@) ==> out@ == cands@.subrange(0, i as int),
        decreases cands@.len() - i,
    {
        let x = cands[i];
        let mut p: usize = 0;
        loop
            invariant
                p <= out@.len(),
                bounded(x.1),
                forall|c: int| 0 <= c < out@.len() ==> bounded(#[trigger] out@[c].1),
                forall|q: int| 0 <= q < p ==> score_ge(#[trigger] out@[q].1, x.1),
            ensures
                p <= out@.len(),
                forall|q: int| 0 <= q < p ==> score_ge(#[trigger] out@[q].1, x.1),
                p < out@.len() ==> !score_ge(out@[p as int].1, x.1),
            decreases out@.len() - p,
        {
            if p == out.len() {
                break ;
            }
            if !score_at_least(out[p].1, x.1) {
                break ;
            }
            p = p + 1;
        }
        let ghost old_out = out@;
        proof {
            lemma_insert_keeps_order(old_out, p as int, x);
            assert(!pair_ids(old_out).contains(x.0)) by {
                if pair_ids(old_out).contains(x.0) {
                    let q = choose|q: int| 0 <= q < old_out.len() && pair_ids(old_out)[q] == x.0;
                    assert(old_out.contains(old_out[q]));
                    assert(cands@.subrange(0, i as int).contains(old_out[q]));
                    let c = choose|c: int|
                        0 <= c < i && cands@.subrange(0, i as int)[c] == old_out[q];
                    assert(pair_ids(cands@)[c] == pair_ids(cands@)[i as int]);
                }
            }
        }
        out.insert(p, x);
        proof {
            assert(pair_ids(out@) =~= pair_ids(old_out).insert(p as int, x.0));
            assert forall|y: (FileId, RrfScore)| #[trigger]
                out@.contains(y) <==> cands@.subrange(0, i + 1).contains(y) by {
                lemma_insert_contains(old_out, p as int, x, y);
                assert(cands@.subrange(0, i + 1) =~= cands@.subrange(0, i as int).push(x));
                lemma_seq_contains_after_push(cands@.subrange(0, i as int), x, y);
            }
            assert forall|c: int| 0 <= c < out@.len() implies bounded(#[trigger] out@[c].1) by {
                if c > p {
                    assert(out@[c] == old_out[c - 1]);
                }
            }
            assert forall|a: int, b: int|
                0 <= a < pair_ids(out@).len() && 0 <= b < pair_ids(out@).len() && a != b implies
                pair_ids(out@)[a] != pair_ids(out@)[b] by {
                lemma_insert_contains(pair_ids(old_out), p as int, x.0, pair_ids(out@)[a]);
                lemma_insert_contains(pair_ids(old_out), p as int, x.0, pair_ids(out@)[b]);
                if a != p as int && b != p as int {
                    let a0 = if a < p {
                        a
                    } else {
                        a - 1
                    };
                    let b0 = if b < p {
                        b
                    } else {
                        b - 1
                    };
                    assert(pair_ids(out@)[a] == pair_ids(old_out)[a0]);
                    assert(pair_ids(out@)[b] == pair_ids(old_out)[b0]);
                } else if a == p {
                    let b0 = if b < p {
                        b
                    } else {
                        b - 1
                    };
                    assert(pair_ids(out@)[b] == pair_ids(old_out)[b0]);
                } else {
                    let a0 = if a < p {
                        a
                    } else {
                        a - 1
                    };
                    assert(pair_ids(out@)[a] == pair_ids(old_out)[a0]);
                }
            }
            if sorted_desc(cands@) {
                assert forall|q: int| 0 <= q < old_out.len() implies score_ge(
                    #[trigger] old_out[q].1,
                    x.1,
                ) by {
                    assert(old_out[q] == cands@[q]);
                }
                if p < old_out.len() {
                    assert(score_ge(old_out[p as int].1, x.1));
                }
                assert(out@ =~= cands@.subrange(0, i + 1));
            }
        }
        i = i + 1;
    }
    assert(cands@.subrange(0, i as int) =~= cands@);
    out
}

/// The smaller of two naturals.
pub open spec fn min_nat(a: int, b: int) -> int {
    if a < b {
        a
    } else {
        b
    }
}

/// Fusion of the keyword ranking `k` and the semantic ranking `s` with
/// keyword weight `w`, cut to `limit`: the distinct documents of both,
/// highest fused score first, each with its score, and no document left
/// out that scores above one that was kept.
pub open spec fn is_fusion(
    k: Seq<FileId>,
    s: Seq<FileId>,
    w: int,
    limit: int,
    r: Seq<(FileId, RrfScore)>,
) -> bool {
    &&& r.len() == min_nat(limit, (k + s).to_set().len() as int)
    &&& pair_ids(r).no_duplicates()
    &&& forall|c: int|
        0 <= c < r.len() ==> (k + s).contains(#[trigger] r[c].0) && r[c].1 == rrf_score(
            k,
            s,
            w,
            r[c].0,
        )
    &&& sorted_desc(r)
    &&& forall|id: FileId, c: int|
        (k + s).contains(id) && !pair_ids(r).contains(id) && 0 <= c < r.len() ==> score_ge(
            #[trigger] r[c].1,
            rrf_score(k, s, w, id),
        ) && #[trigger] (k + s).contains(id)
}

/// The identifiers of keyword hits.
fn keyword_ids<S>(hits: &Vec<SearchResult<S>>) -> (r: Vec<FileId>)
    ensures
        r@ == hit_ids(hits@),
{
    let mut out: Vec<FileId> = Vec::new();
    let mut i: usize = 0;
    while i < hits.len()
        invariant
            i <= hits@.len(),
            out@ == hit_ids(hits@).subrange(0, i as int),
        decreases hits@.len() - i,
    {
        out.push(hits[i].file_id);
        assert(hit_ids(hits@).subrange(0, i + 1) =~= hit_ids(hits@).subrange(0, i as int).push(
            hits@[i as int].file_id,
        ));
        i = i + 1;
    }
    assert(hit_ids(hits@).subrange(0, i as int) =~= hit_ids(hits@));
    out
}

/// The identifiers of ranked pairs.
fn ranked_ids<T>(pairs: &Vec<(FileId, T)>) -> (r: Vec<FileId>)
    ensures
        r@ == pair_ids(pairs@),
{
    let mut out: Vec<FileId> = Vec::new();
    let mut i: usize = 0;
    while i < pairs.len()
        invariant
            i <= pairs@.len(),
            out@ == pair_ids(pairs@).subrange(0, i as int),
        decreases pairs@.len() - i,
    {
        out.push(pairs[i].0);
        assert(pair_ids(pairs@).subrange(0, i + 1) =~= pair_ids(pairs@).subrange(
            0,
            i as int,
        ).push(pairs@[i as int].0));
        i = i + 1;
    }
    assert(pair_ids(pairs@).subrange(0, i as int) =~= pair_ids(pairs@));
    out
}

/// The score of rank `c` in a ranking of weight `weight` that is fused alone.
pub open spec fn lone_score(weight: int, c: int) -> RrfScore {
    RrfScore { num: weight as u128, den: (61 + c) as u128 }
}

proof fn lemma_one_list_sorted(cands: Seq<(FileId, RrfScore)>, l: Seq<FileId>, weight: int)
    requires
        0 <= weight <= WEIGHT_SCALE,
        l.len() <= MAX_RANKED,
        l.no_duplicates(),
        pair_ids(cands) == l,
        forall|c: int|
            0 <= c < cands.len() ==> #[trigger] cands[c].1 == lone_score(weight, c),
    ensures
        sorted_desc(cands),
{
    assert forall|a: int, b: int| 0 <= a < b < cands.len() implies score_ge(
        cands[a].1,
        cands[b].1,
    ) by {
        assert(pair_ids(cands).len() == l.len());
        lemma_single_rank_order(weight, a, b);
    }
}

/// Reciprocal Rank Fusion of keyword hits and semantic hits: each document
/// scores `w / (61 + r)` for its rank `r` among the keyword hits and
/// `(1 - w) / (61 + r)` for its rank among the semantic hits, where `w` is
/// `keyword_weight / WEIGHT_SCALE`; the documents are returned highest
/// score first, at most `limit` of them.
pub fn reciprocal_rank_fusion<S, T>(
    keyword_results: &Vec<SearchResult<S>>,
    semantic_results: &Vec<(FileId, T)>,
    keyword_weight: u32,
    limit: usize,
) -> (r: Vec<(FileId, RrfScore)>)
    requires
        keyword_weight <= WEIGHT_SCALE,
        keyword_results@.len() <= MAX_RANKED,
        semantic_results@.len() <= MAX_RANKED,
    ensures
        is_fusion(
            hit_ids(keyword_results@),
            pair_ids(semantic_results@),
            keyword_weight as int,
            limit as int,
            r@,
        ),
        pair_ids(semantic_results@).len() == 0 && hit_ids(keyword_results@).no_duplicates()
            ==> pair_ids(r@) == hit_ids(keyword_results@).take(r@.len() as int),
        hit_ids(keyword_results@).len() == 0 && pair_ids(semantic_results@).no_duplicates()
            ==> pair_ids(r@) == pair_ids(semantic_results@).take(r@.len() as int),
        keyword_results@.len() == 0 && semantic_results@.len() == 0 ==> r@.len() == 0,
{
    let kids = keyword_ids(keyword_results);
    let sids = ranked_ids(semantic_results);
    let ghost k = kids@;
    let ghost s = sids@;
    let ghost w = keyword_weight as int;
    let cands = collect_candidates(&kids, &sids, keyword_weight);
    proof {
        if s.len() == 0 && k.no_duplicates() {
            assert forall|c: int| 0 <= c < cands@.len() implies #[trigger] cands@[c].1
                == lone_score(w, c) by {
                assert(pair_ids(cands@)[c] == k[c]);
                assert(is_first(k, k[c], c));
                lemma_first_unique(k, k[c], c);
            }
            lemma_one_list_sorted(cands@, k, w);
        }
        if k.len() == 0 && s.no_duplicates() {
            assert forall|c: int| 0 <= c < cands@.len() implies #[trigger] cands@[c].1
                == lone_score(WEIGHT_SCALE - w, c) by {
                assert(pair_ids(cands@)[c] == s[c]);
                assert(is_first(s, s[c], c));
                lemma_first_unique(s, s[c], c);
            }
            lemma_one_list_sorted(cands@, s, WEIGHT_SCALE - w);
        }
        if k.len() == 0 && s.len() == 0 {
            assert((k + s).to_set() =~= Set::empty());
        }
        pair_ids(cands@).unique_seq_to_set();
        assert(pair_ids(cands@).to_set() =~= (k + s).to_set());
    }
    let mut out = sort_by_score(&cands);
    let ghost full = out@;
    out.truncate(limit);
    proof {
        assert(out@ == full.take(out@.len() as int));
        assert(pair_ids(out@) =~= pair_ids(full).take(out@.len() as int));
        assert forall|c: int| 0 <= c < out@.len() implies (k + s).contains(#[trigger] out@[c].0)
            && out@[c].1 == rrf_score(k, s, w, out@[c].0) by {
            assert(full.contains(full[c]));
            let d = choose|d: int| 0 <= d < cands@.len() && cands@[d] == full[c];
            assert(pair_ids(cands@).contains(cands@[d].0)) by {
                assert(pair_ids(cands@)[d] == cands@[d].0);
            }
        }
        assert forall|id: FileId, c: int|
            (k + s).contains(id) && !pair_ids(out@).contains(id) && 0 <= c < out@.len() implies
            score_ge(#[trigger] out@[c].1, rrf_score(k, s, w, id)) && #[trigger] (k
            + s).contains(id) by {
            assert(pair_ids(cands@).contains(id));
            let d = choose|d: int| 0 <= d < pair_ids(cands@).len() && pair_ids(cands@)[d] == id;
            assert(cands@.contains(cands@[d]));
            assert(full.contains(cands@[d]));
            let q = choose|q: int| 0 <= q < full.len() && full[q] == cands@[d];
            if q < out@.len() {
                assert(pair_ids(out@)[q] == id);
            }
            assert(out@[c] == full[c]);
            assert(score_ge(full[c].1, full[q].1));
            assert(cands@[d].1 == rrf_score(k, s, w, cands@[d].0));
        }
    }
    out
}

} // verus!
