use vstd::prelude::*;

verus! {

use crate::params::Parameters;

/// The painting artifacts a `Paint` run writes for a chunk: one per
/// haplotype of the chunk's sample set.
pub open spec fn spec_painting_outputs(num_samples: int) -> Set<int> {
    Set::new(|h: int| 0 <= h < num_samples)
}

/// The painting subdirectory's contents after a refresh: what the run
/// removes goes first, then what it writes arrives.
pub open spec fn spec_apply_refresh(prior: Set<int>, removed: Set<int>, written: Set<int>) -> Set<
    int,
> {
    prior.difference(removed).union(written)
}

/// The painting subdirectory's contents after one `Paint` run over a chunk
/// with `num_samples` haplotypes: every stale artifact is deleted before
/// painting, then all artifacts are regenerated, so partial previous output
/// is never left mixed with new output.
pub open spec fn spec_after_paint(prior: Set<int>, num_samples: int) -> Set<int> {
    spec_apply_refresh(prior, prior, spec_painting_outputs(num_samples))
}

/// A refresh that removes everything previously present ends with exactly
/// what it writes: nothing of the prior contents shows in the final state.
pub proof fn lemma_refresh_final_state(prior: Set<int>, removed: Set<int>, written: Set<int>)
    requires
        forall|x: int| prior.contains(x) ==> removed.contains(x),
    ensures
        spec_apply_refresh(prior, removed, written) == written,
{
    assert(spec_apply_refresh(prior, removed, written) =~= written);
}

/// Idempotent rerun: painting a chunk twice leaves the painting
/// subdirectory in the same final state as a single run.
pub proof fn lemma_paint_rerun_idempotent(prior: Set<int>, num_samples: int)
    ensures
        spec_after_paint(spec_after_paint(prior, num_samples), num_samples) == spec_after_paint(
            prior,
            num_samples,
        ),
{
    lemma_refresh_final_state(prior, prior, spec_painting_outputs(num_samples));
    lemma_refresh_final_state(
        spec_after_paint(prior, num_samples),
        spec_after_paint(prior, num_samples),
        spec_painting_outputs(num_samples),
    );
}

/// The refresh plan of a `Paint` run: the stale artifacts to delete before
/// painting, and the haplotypes to paint, in ascending order.
pub struct PaintPlan {
    pub remove: Vec<usize>,
    pub paint: Vec<usize>,
}

/// Plan a `Paint` run over a chunk whose painting subdirectory currently
/// holds the artifacts listed in `existing`: every one of them is removed,
/// and one artifact per haplotype of the chunk is painted.
pub fn plan_paint(existing: &Vec<usize>, p: &Parameters) -> (r: PaintPlan)
    requires
        p.wf(),
    ensures
        r.remove@ == existing@,
        r.paint@.len() == p.num_samples,
        forall|k: int| 0 <= k < r.paint@.len() ==> #[trigger] r.paint@[k] == k,
{
    let mut remove: Vec<usize> = Vec::new();
    let mut i: usize = 0;
    while i < existing.len()
        invariant
            i <= existing@.len(),
            remove@ == existing@.take(i as int),
        decreases existing@.len() - i,
    {
        proof {
            assert(existing@.take(i + 1) =~= existing@.take(i as int).push(existing@[i as int]));
        }
        remove.push(existing[i]);
        i = i + 1;
    }
    proof {
        assert(existing@.take(existing@.len() as int) =~= existing@);
    }
    let mut paint: Vec<usize> = Vec::new();
    let mut h: usize = 0;
    while h < p.num_samples
        invariant
            h <= p.num_samples,
            paint@.len() == h,
            forall|k: int| 0 <= k < h ==> #[trigger] paint@[k] == k,
        decreases p.num_samples - h,
    {
        paint.push(h);
        h = h + 1;
    }
    PaintPlan { remove, paint }
}

} // verus!
