use vstd::prelude::*;

verus! {

/// One mutation: a genomic position and the tree branch on which the
/// corresponding allele change occurred.
#[derive(Clone, Copy, PartialEq, Eq, Structural, Debug)]
pub struct MutationRecord {
    pub position: usize,
    pub branch: usize,
}

/// The records of `muts` whose positions fall within the inclusive span
/// `[start, end]`, in their original order.
pub open spec fn spec_restricted(muts: Seq<MutationRecord>, start: int, end: int) -> Seq<
    MutationRecord,
>
    decreases muts.len(),
{
    if muts.len() == 0 {
        Seq::empty()
    } else {
        let rest = spec_restricted(muts.drop_last(), start, end);
        if start <= muts.last().position <= end {
            rest.push(muts.last())
        } else {
            rest
        }
    }
}

/// Every record a restriction keeps lies within the span.
pub proof fn lemma_restricted_within_span(muts: Seq<MutationRecord>, start: int, end: int, k: int)
    requires
        0 <= k < spec_restricted(muts, start, end).len(),
    ensures
        start <= spec_restricted(muts, start, end)[k].position <= end,
    decreases muts.len(),
{
    if muts.len() > 0 {
        let rest = spec_restricted(muts.drop_last(), start, end);
        if k < rest.len() {
            lemma_restricted_within_span(muts.drop_last(), start, end, k);
        }
    }
}

/// Restrict a mutation mapping to one section's genomic span: exactly the
/// records whose positions lie within the inclusive span stay, in order.
pub fn restrict_mutations(muts: &Vec<MutationRecord>, start: usize, end: usize) -> (r: Vec<
    MutationRecord,
>)
    ensures
        r@ == spec_restricted(muts@, start as int, end as int),
{
    proof {
        assert(muts@.take(0) =~= Seq::<MutationRecord>::empty());
    }
    let mut r: Vec<MutationRecord> = Vec::new();
    let mut i: usize = 0;
    while i < muts.len()
        invariant
            i <= muts@.len(),
            r@ == spec_restricted(muts@.take(i as int), start as int, end as int),
        decreases muts@.len() - i,
    {
        let m = muts[i];
        if start <= m.position && m.position <= end {
            r.push(m);
        }
        proof {
            assert(muts@.take(i + 1).drop_last() =~= muts@.take(i as int));
            assert(muts@.take(i + 1).last() == m);
            assert(r@ == spec_restricted(muts@.take(i + 1), start as int, end as int));
        }
        i = i + 1;
    }
    proof {
        assert(muts@.take(muts@.len() as int) =~= muts@);
    }
    r
}

} // verus!
