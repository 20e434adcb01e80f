//! A flat store of fixed-dimension vectors keyed by file identifier.
use vstd::prelude::*;

use crate::chars::{decimal, decimal_of};
use crate::error::Error;
use crate::types::FileId;

verus! {

/// Vectors of one fixed dimension, at most one per file identifier, kept in
/// order of first insertion.
pub struct VectorStore<V> {
    entries: Vec<(FileId, Vec<V>)>,
    dimension: usize,
}

/// The identifiers of the entries, in order.
pub open spec fn entry_ids<V>(e: Seq<(FileId, Seq<V>)>) -> Seq<FileId> {
    e.map_values(|x: (FileId, Seq<V>)| x.0)
}

/// Position of the entry of `id`, if any.
pub open spec fn entry_index<V>(e: Seq<(FileId, Seq<V>)>, id: FileId) -> Option<int>
    decreases e.len(),
{
    if e.len() == 0 {
        None
    } else if e.last().0 == id {
        Some(e.len() - 1)
    } else {
        entry_index(e.drop_last(), id)
    }
}

/// The message of the error for a vector of length `got` in a store of dimension `expected`.
pub open spec fn mismatch_message(expected: nat, got: nat) -> Seq<char> {
    "Embedding dimension mismatch: expected "@ + decimal_of(expected) + ", got "@ + decimal_of(got)
}

pub proof fn lemma_entry_index_at<V>(e: Seq<(FileId, Seq<V>)>, id: FileId, i: int)
    requires
        entry_ids(e).no_duplicates(),
        0 <= i < e.len(),
        e[i].0 == id,
    ensures
        entry_index(e, id) == Some(i),
    decreases e.len(),
{
    if i != e.len() - 1 {
        let l = e.len() - 1;
        assert(entry_ids(e)[l] == e[l].0);
        assert(entry_ids(e)[i] == e[i].0);
        assert(entry_ids(e.drop_last()) =~= entry_ids(e).drop_last());
        lemma_entry_index_at(e.drop_last(), id, i);
    }
}

pub proof fn lemma_entry_index_none<V>(e: Seq<(FileId, Seq<V>)>, id: FileId)
    requires
        forall|j: int| 0 <= j < e.len() ==> e[j].0 != id,
    ensures
        entry_index(e, id) is None,
    decreases e.len(),
{
    if e.len() > 0 {
        lemma_entry_index_none(e.drop_last(), id);
    }
}

pub proof fn lemma_entry_index_found<V>(e: Seq<(FileId, Seq<V>)>, id: FileId)
    requires
        entry_index(e, id) is Some,
    ensures
        0 <= entry_index(e, id)->0 < e.len(),
        e[entry_index(e, id)->0].0 == id,
    decreases e.len(),
{
    if e.last().0 != id {
        lemma_entry_index_found(e.drop_last(), id);
    }
}

impl<V> VectorStore<V> {
    /// The entries, each an identifier and its vector.
    pub closed spec fn entries(&self) -> Seq<(FileId, Seq<V>)> {
        self.entries@.map_values(|x: (FileId, Vec<V>)| (x.0, x.1@))
    }

    /// The dimension fixed at construction.
    pub closed spec fn dim(&self) -> nat {
        self.dimension as nat
    }

    /// Identifiers are unique and every vector has the store's dimension.
    pub open spec fn wf(&self) -> bool {
        &&& entry_ids(self.entries()).no_duplicates()
        &&& forall|i: int| 0 <= i < self.entries().len() ==> (#[trigger] self.entries()[i]).1.len()
            == self.dim()
    }

    /// The vector stored for `id`, if any.
    pub open spec fn vector_of(&self, id: FileId) -> Option<Seq<V>> {
        match entry_index(self.entries(), id) {
            Some(i) => Some(self.entries()[i].1),
            None => None,
        }
    }

    /// An empty store of vectors of length `dimension`.
    pub fn new(dimension: usize) -> (r: VectorStore<V>)
        ensures
            r.wf(),
            r.dim() == dimension,
            r.entries().len() == 0,
    {
        let r = VectorStore { entries: Vec::new(), dimension };
        assert(r.entries() =~= Seq::empty());
        r
    }

    /// The dimension of the stored vectors.
    pub fn dimension(&self) -> (r: usize)
        ensures
            r == self.dim(),
    {
        self.dimension
    }

    /// Number of stored vectors.
    pub fn len(&self) -> (r: usize)
        ensures
            r == self.entries().len(),
    {
        self.entries.len()
    }

    /// Whether no vector is stored.
    pub fn is_empty(&self) -> (r: bool)
        ensures
            r == (self.entries().len() == 0),
    {
        self.entries.len() == 0
    }

    /// The `i`-th entry: an identifier and its vector.
    pub fn entry(&self, i: usize) -> (r: (FileId, &Vec<V>))
        requires
            i < self.entries().len(),
        ensures
            r.0 == self.entries()[i as int].0,
            r.1@ == self.entries()[i as int].1,
    {
        (self.entries[i].0, &self.entries[i].1)
    }

    fn find(&self, id: FileId) -> (r: Option<usize>)
        requires
            self.wf(),
        ensures
            match r {
                Some(i) => entry_index(self.entries(), id) == Some(i as int) && i
                    < self.entries@.len(),
                None => entry_index(self.entries(), id) is None,
            },
    {
        let mut i: usize = 0;
        while i < self.entries.len()
            invariant
                self.wf(),
                i <= self.entries@.len(),
                forall|j: int| 0 <= j < i ==> self.entries()[j].0 != id,
            decreases self.entries@.len() - i,
        {
            if self.entries[i].0 == id {
                proof {
                    lemma_entry_index_at(self.entries(), id, i as int);
                }
                return Some(i);
            }
            i = i + 1;
        }
        proof {
            lemma_entry_index_none(self.entries(), id);
        }
        None
    }

    /// Stores `embedding` for `file_id`, replacing an earlier vector; a
    /// vector whose length is not the store's dimension is refused and
    /// leaves the store as it was.
    pub fn upsert(&mut self, file_id: FileId, embedding: Vec<V>) -> (r: Result<(), Error>)
        requires
            old(self).wf(),
        ensures
            final(self).wf(),
            final(self).dim() == old(self).dim(),
            embedding@.len() != old(self).dim() ==> r is Err && *final(self) == *old(self) && (
            r->Err_0 matches Error::Embedding(m) && m@ == mismatch_message(
                old(self).dim(),
                embedding@.len(),
            )),
            embedding@.len() == old(self).dim() ==> r is Ok && match entry_index(
                old(self).entries(),
                file_id,
            ) {
                Some(i) => final(self).entries() == old(self).entries().update(
                    i,
                    (file_id, embedding@),
                ),
                None => final(self).entries() == old(self).entries().push((file_id, embedding@)),
            },
    {
        if embedding.len() != self.dimension {
            let mut m = String::from_str("Embedding dimension mismatch: expected ");
            let d = decimal(self.dimension as u64);
            m.append(d.as_str());
            m.append(", got ");
            let g = decimal(embedding.len() as u64);
            m.append(g.as_str());
            return Err(Error::Embedding(m));
        }
        let ghost before = self.entries();
        let ghost ev = embedding@;
        match self.find(file_id) {
            Some(i) => {
                self.entries.set(i, (file_id, embedding));
                proof {
                    assert(self.entries() =~= before.update(i as int, (file_id, ev)));
                    lemma_entry_index_found(before, file_id);
                    assert(entry_ids(self.entries()) =~= entry_ids(before));
                }
            },
            None => {
                self.entries.push((file_id, embedding));
                proof {
                    assert(self.entries() =~= before.push((file_id, ev)));
                    assert(entry_ids(self.entries()) =~= entry_ids(before).push(file_id));
                    assert forall|j: int| 0 <= j < before.len() implies before[j].0 != file_id by {
                        if before[j].0 == file_id {
                            lemma_entry_index_at(before, file_id, j);
                        }
                    }
                }
            },
        }
        Ok(())
    }

    /// Removes the vector of `file_id`, if any.
    pub fn delete(&mut self, file_id: FileId)
        requires
            old(self).wf(),
        ensures
            final(self).wf(),
            final(self).dim() == old(self).dim(),
            match entry_index(old(self).entries(), file_id) {
                Some(i) => final(self).entries() == old(self).entries().remove(i),
                None => final(self).entries() == old(self).entries(),
            },
    {
        let ghost before = self.entries();
        match self.find(file_id) {
            Some(i) => {
                self.entries.remove(i);
                proof {
                    assert(self.entries() =~= before.remove(i as int));
                    assert(entry_ids(self.entries()) =~= entry_ids(before).remove(i as int));
                    assert forall|a: int| 0 <= a < self.entries().len() implies (#[trigger] self.entries()[a]).1.len() == self.dim() by {
                        if a >= i {
                            assert(self.entries()[a] == before[a + 1]);
                        }
                    }
                    let ids = entry_ids(self.entries());
                    assert forall|a: int, b: int| 0 <= a < ids.len() && 0 <= b < ids.len() && a != b implies ids[a] != ids[b] by {
                        let a0 = if a < i { a } else { a + 1 };
                        let b0 = if b < i { b } else { b + 1 };
                        assert(ids[a] == entry_ids(before)[a0]);
                        assert(ids[b] == entry_ids(before)[b0]);
                    }
                }
            },
            None => {},
        }
    }
}

} // verus!
