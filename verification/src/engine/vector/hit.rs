//! One result of a search.

use vstd::prelude::*;

use crate::engine::memory::MemoryId;

verus! {

/// A memory and the cosine similarity of its vector to the query, as a single-precision bit
/// pattern; higher is better.
#[derive(Debug, Clone, PartialEq, Eq)]
pub struct SearchHit {
    pub id: MemoryId,
    pub similarity: u32,
}

/// The model of a hit.
pub type HitModel = (Seq<char>, u32);

impl View for SearchHit {
    type V = HitModel;

    open spec fn view(&self) -> HitModel {
        (self.id@, self.similarity)
    }
}

impl SearchHit {
    pub fn new(id: MemoryId, similarity: u32) -> (h: SearchHit)
        ensures
            h.id == id,
            h.similarity == similarity,
    {
        SearchHit { id, similarity }
    }
}

} // verus!
