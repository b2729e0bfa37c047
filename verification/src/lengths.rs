use vstd::prelude::*;

verus! {

use crate::errors::PipelineError;
use crate::mutations::MutationRecord;

/// The prior the branch-length sampler runs under.
#[derive(Clone, Copy, PartialEq, Eq, Structural, Debug)]
pub enum CoalescentPrior {
    /// A constant effective population size.
    ConstantPopulationSize,
    /// A supplied piecewise time-varying coalescence-rate curve.
    RateCurve,
}

/// Choose the sampler's prior.
///
/// Exactly one of the constant population size and the rate curve is
/// active: a supplied rate curve overrides the constant size, and an
/// invocation that supplies neither is invalid.
pub fn select_prior(has_rate_curve: bool, has_population_size: bool) -> (r: Result<
    CoalescentPrior,
    PipelineError,
>)
    ensures
        r is Ok <==> has_rate_curve || has_population_size,
        match r {
            Ok(prior) => prior == (if has_rate_curve {
                CoalescentPrior::RateCurve
            } else {
                CoalescentPrior::ConstantPopulationSize
            }),
            Err(e) => e == PipelineError::ValueError,
        },
{
    if has_rate_curve {
        Ok(CoalescentPrior::RateCurve)
    } else if has_population_size {
        Ok(CoalescentPrior::ConstantPopulationSize)
    } else {
        Err(PipelineError::ValueError)
    }
}

/// How many of the records of `muts` map to branch `b`.
pub open spec fn spec_branch_mutation_count(muts: Seq<MutationRecord>, b: int) -> int
    decreases muts.len(),
{
    if muts.len() == 0 {
        0
    } else {
        spec_branch_mutation_count(muts.drop_last(), b) + if muts.last().branch == b {
            1int
        } else {
            0int
        }
    }
}

/// The observed mutation count of every branch of one section's tree:
/// entry `b` is the number of records mapping to branch `b`.  These counts
/// are what the sampler's per-branch Poisson likelihood is evaluated on.
pub fn branch_mutation_counts(muts: &Vec<MutationRecord>, num_branches: usize) -> (r: Vec<usize>)
    ensures
        r@.len() == num_branches,
        forall|b: int|
            0 <= b < num_branches ==> #[trigger] r@[b] == spec_branch_mutation_count(muts@, b),
{
    let mut r: Vec<usize> = Vec::new();
    let mut b: usize = 0;
    while b < num_branches
        invariant
            b <= num_branches,
            r@.len() == b,
            forall|c: int| 0 <= c < b ==> #[trigger] r@[c] == 0,
        decreases num_branches - b,
    {
        r.push(0);
        b = b + 1;
    }
    proof {
        assert(muts@.take(0) =~= Seq::<MutationRecord>::empty());
    }
    let mut i: usize = 0;
    while i < muts.len()
        invariant
            i <= muts@.len(),
            r@.len() == num_branches,
            forall|c: int|
                0 <= c < num_branches ==> #[trigger] r@[c] == spec_branch_mutation_count(
                    muts@.take(i as int),
                    c,
                ),
            forall|c: int| 0 <= c < num_branches ==> #[trigger] r@[c] <= i,
        decreases muts@.len() - i,
    {
        let m = muts[i];
        if m.branch < num_branches {
            let c = r[m.branch];
            r.set(m.branch, c + 1);
        }
        proof {
            assert(muts@.take(i + 1).drop_last() =~= muts@.take(i as int));
            assert(muts@.take(i + 1).last() == m);
            assert forall|c: int|
                0 <= c < num_branches implies #[trigger] r@[c] == spec_branch_mutation_count(
                    muts@.take(i + 1),
                    c,
                ) by {
                assert(spec_branch_mutation_count(muts@.take(i + 1), c)
                    == spec_branch_mutation_count(muts@.take(i as int), c) + if m.branch == c {
                    1int
                } else {
                    0int
                });
            }
        }
        i = i + 1;
    }
    proof {
        assert(muts@.take(muts@.len() as int) =~= muts@);
    }
    r
}

} // verus!
