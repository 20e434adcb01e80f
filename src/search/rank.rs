//! Selection of the best-scoring entries of a list, by integer order keys.
use vstd::prelude::*;

verus! {

/// `r` lists positions of `keys`, highest key first, cut to `limit`, and
/// no position left out has a key above one that was kept.
pub open spec fn is_top_k(keys: Seq<u64>, limit: int, r: Seq<usize>) -> bool {
    &&& r.len() == if limit < keys.len() {
        limit
    } else {
        keys.len() as int
    }
    &&& r.no_duplicates()
    &&& forall|a: int| 0 <= a < r.len() ==> #[trigger] r[a] < keys.len()
    &&& forall|a: int, b: int| 0 <= a < b < r.len() ==> keys[#[trigger] r[a] as int] >= keys[#[trigger] r[b] as int]
    &&& forall|x: usize, a: int|
        0 <= x < keys.len() && !r.contains(x) && 0 <= a < r.len() ==> keys[#[trigger] r[a] as int]
            >= #[trigger] keys[x as int]
}

proof fn lemma_insert_contains_usize(v: Seq<usize>, p: int, x: usize, y: usize)
    requires
        0 <= p <= v.len(),
    ensures
        v.insert(p, x).contains(y) <==> v.contains(y) || y == x,
{
    let w = v.insert(p, x);
    if v.contains(y) {
        let q = choose|q: int| 0 <= q < v.len() && v[q] == y;
        if q < p {
            assert(w[q] == y);
        } else {
            assert(w[q + 1] == y);
        }
    }
    if y == x {
        assert(w[p] == x);
    }
    if w.contains(y) {
        let q = choose|q: int| 0 <= q < w.len() && w[q] == y;
        if q < p {
            assert(v[q] == y);
        } else if q > p {
            assert(v[q - 1] == y);
        }
    }
}

/// Positions of the `limit` highest keys, highest first.
pub fn top_k_by_key(keys: &Vec<u64>, limit: usize) -> (r: Vec<usize>)
    ensures
        is_top_k(keys@, limit as int, r@),
{
    let mut out: Vec<usize> = Vec::new();
    let mut i: usize = 0;
    while i < keys.len()
        invariant
            i <= keys@.len(),
            out@.len() == i,
            out@.no_duplicates(),
            forall|y: usize| #[trigger] out@.contains(y) <==> y < i,
            forall|a: int| 0 <= a < out@.len() ==> #[trigger] out@[a] < i,
            forall|a: int, b: int|
                0 <= a < b < out@.len() ==> keys@[#[trigger] out@[a] as int] >= keys@[#[trigger] out@[b] as int],
        decreases keys@.len() - i,
    {
        let x = keys[i];
        let mut p: usize = 0;
        loop
            invariant
                p <= out@.len(),
                x == keys@[i as int],
                i < keys@.len(),
                forall|a: int| 0 <= a < out@.len() ==> #[trigger] out@[a] < i,
                forall|q: int| 0 <= q < p ==> keys@[#[trigger] out@[q] as int] >= x,
            ensures
                p <= out@.len(),
                forall|q: int| 0 <= q < p ==> keys@[#[trigger] out@[q] as int] >= x,
                p < out@.len() ==> keys@[out@[p as int] as int] < x,
            decreases out@.len() - p,
        {
            if p == out.len() {
                break ;
            }
            if keys[out[p]] < x {
                break ;
            }
            p = p + 1;
        }
        let ghost before = out@;
        out.insert(p, i);
        proof {
            assert forall|y: usize| #[trigger] out@.contains(y) <==> y < i + 1 by {
                lemma_insert_contains_usize(before, p as int, i, y);
            }
            assert forall|a: int| 0 <= a < out@.len() implies #[trigger] out@[a] < i + 1 by {
                if a < p {
                    assert(out@[a] == before[a]);
                } else if a > p {
                    assert(out@[a] == before[a - 1]);
                }
            }
            assert forall|a: int, b: int| 0 <= a < b < out@.len() implies keys@[#[trigger] out@[a] as int]
                >= keys@[#[trigger] out@[b] as int] by {
                if b < p {
                } else if b == p {
                } else if a < p {
                    assert(out@[b] == before[b - 1]);
                } else if a == p {
                    assert(out@[b] == before[b - 1]);
                    if b - 1 > p {
                        assert(keys@[before[p as int] as int] >= keys@[before[b - 1] as int]);
                    }
                } else {
                    assert(out@[a] == before[a - 1]);
                    assert(out@[b] == before[b - 1]);
                }
            }
            assert forall|a: int, b: int| 0 <= a < out@.len() && 0 <= b < out@.len() && a != b implies out@[a]
                != out@[b] by {
                let a0 = if a < p { a } else { a - 1 };
                let b0 = if b < p { b } else { b - 1 };
                if a == p {
                    assert(out@[b] == before[b0]);
                    assert(before[b0] < i);
                } else if b == p {
                    assert(out@[a] == before[a0]);
                    assert(before[a0] < i);
                } else {
                    assert(out@[a] == before[a0]);
                    assert(out@[b] == before[b0]);
                }
            }
        }
        i = i + 1;
    }
    let ghost full = out@;
    out.truncate(limit);
    proof {
        assert(out@ == full.take(out@.len() as int));
        assert forall|x: usize, a: int|
            0 <= x < keys@.len() && !out@.contains(x) && 0 <= a < out@.len() implies keys@[#[trigger] out@[a] as int]
                >= #[trigger] keys@[x as int] by {
            assert(full.contains(x));
            let q = choose|q: int| 0 <= q < full.len() && full[q] == x;
            if q < out@.len() {
                assert(out@[q] == x);
            }
            assert(out@[a] == full[a]);
        }
    }
    out
}

} // verus!
