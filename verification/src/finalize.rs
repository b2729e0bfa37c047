use vstd::prelude::*;

verus! {

use crate::errors::PipelineError;

/// The genomic range one chunk covers: inclusive start, exclusive end.
#[derive(Clone, Copy, PartialEq, Eq, Structural, Debug)]
pub struct ChunkSpan {
    pub start: usize,
    pub end: usize,
}

/// Whether a chunk sequence is fit to merge: every chunk covers a
/// non-empty range, and the chunks cover disjoint ranges in ascending
/// genomic order.
pub open spec fn spec_mergeable(spans: Seq<ChunkSpan>) -> bool {
    &&& forall|i: int| 0 <= i < spans.len() ==> (#[trigger] spans[i]).start < spans[i].end
    &&& forall|i: int| 0 <= i < spans.len() - 1 ==> (#[trigger] spans[i]).end <= spans[i + 1].start
}

/// The final stage: merges every chunk's combined output, in ascending
/// genomic order, into one genome-wide result, attaching sample ages and
/// optional per-site annotations.
pub struct Finalize {
    /// Whether a sample-ages file accompanies the merge.
    pub with_sample_ages: bool,
    /// Whether a per-site annotation file accompanies the merge.
    pub with_annotation: bool,
}

impl Finalize {
    /// The order in which the chunks' outputs are merged: their own
    /// ascending order, admitted exactly when their ranges are non-empty,
    /// disjoint and ascending.
    pub fn merge_order(&self, spans: &Vec<ChunkSpan>) -> (r: Result<Vec<usize>, PipelineError>)
        ensures
            r is Ok <==> spec_mergeable(spans@),
            match r {
                Ok(order) => {
                    &&& order@.len() == spans@.len()
                    &&& forall|i: int| 0 <= i < order@.len() ==> #[trigger] order@[i] == i
                },
                Err(e) => e == PipelineError::ValueError,
            },
    {
        let n = spans.len();
        let mut order: Vec<usize> = Vec::new();
        let mut i: usize = 0;
        while i < n
            invariant
                n == spans@.len(),
                i <= n,
                order@.len() == i,
                forall|j: int| 0 <= j < i ==> #[trigger] order@[j] == j,
                forall|j: int| 0 <= j < i ==> (#[trigger] spans@[j]).start < spans@[j].end,
                forall|j: int|
                    0 <= j < i - 1 ==> (#[trigger] spans@[j]).end <= spans@[j + 1].start,
            decreases n - i,
        {
            let s = spans[i];
            if s.start >= s.end {
                return Err(PipelineError::ValueError);
            }
            if i > 0 && spans[i - 1].end > s.start {
                return Err(PipelineError::ValueError);
            }
            order.push(i);
            i = i + 1;
        }
        Ok(order)
    }
}

} // verus!
