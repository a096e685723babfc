//! The answer to a full-text search.

use vstd::prelude::*;

verus! {

/// A hit. The score is whatever the index ranks by; it is carried along.
pub struct HitOut<S> {
    pub score: S,
    pub image_path: String,
    pub image_id: String,
    pub partition: u64,
    pub file_path: String,
    pub file_name: String,
    pub ext: String,
    pub size: u64,
    pub excerpt: String,
}

/// The answer to a search.
pub struct SearchOutput<S> {
    pub hits: Vec<HitOut<S>>,
    pub total: usize,
}

/// The answer to a search: the hits in the order of the index, and their number.
pub fn search_output<S>(hits: Vec<HitOut<S>>) -> (r: SearchOutput<S>)
    ensures
        r.hits@ == hits@,
        r.total == hits@.len(),
{
    let total: usize = hits.len();
    SearchOutput { hits, total }
}

} // verus!
