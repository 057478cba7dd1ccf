//! An agent paired with the novelty score it was given.

use vstd::prelude::*;

verus! {

/// An agent (its coordinates as bit patterns) together with its novelty
/// score. Produced by an evaluation pass, consumed by selection.
pub struct ScoredAgent {
    pub agent: Vec<u64>,
    pub score: u64,
}

impl View for ScoredAgent {
    type V = (Seq<u64>, u64);

    open spec fn view(&self) -> (Seq<u64>, u64) {
        (self.agent@, self.score)
    }
}

impl DeepView for ScoredAgent {
    type V = (Seq<u64>, u64);

    open spec fn deep_view(&self) -> (Seq<u64>, u64) {
        (self.agent@, self.score)
    }
}

} // verus!
