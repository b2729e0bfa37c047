use vstd::prelude::*;

verus! {

use crate::errors::PipelineError;
use crate::tree::AncestralTree;
use crate::tree::spec_leaf_signature;
use crate::tree::leaf_signature;

/// Two branches of adjacent sections' trees represent the same lineage when
/// they induce the same leaf partition over the shared sample set.
pub open spec fn spec_equivalent(
    left: AncestralTree,
    right: AncestralTree,
    b1: int,
    b2: int,
) -> bool {
    spec_leaf_signature(left, b1) == spec_leaf_signature(right, b2)
}

/// How many positions two equal-length leaf partitions both set: the
/// number of sample leaves the two branches have in common.
pub open spec fn count_common(a: Seq<bool>, b: Seq<bool>) -> int
    decreases a.len(),
{
    if a.len() == 0 {
        0
    } else {
        count_common(a.drop_last(), b.drop_last()) + if a.last() && b.len() > 0 && b.last() {
            1int
        } else {
            0int
        }
    }
}

/// The number of sample leaves branch `b1` of the earlier tree and branch
/// `b2` of the later tree have in common.
pub open spec fn spec_overlap(left: AncestralTree, right: AncestralTree, b1: int, b2: int) -> int {
    count_common(spec_leaf_signature(left, b1), spec_leaf_signature(right, b2))
}

/// Whether some branch of the later tree induces exactly the leaf partition
/// of branch `b1` of the earlier tree.
pub open spec fn spec_has_exact(left: AncestralTree, right: AncestralTree, b1: int) -> bool {
    exists|c: int| 0 <= c < right.num_branches() && spec_equivalent(left, right, b1, c)
}

/// `b2` is the lowest-numbered branch of the later tree with `b1`'s exact
/// leaf partition.
pub open spec fn spec_least_exact_at(
    left: AncestralTree,
    right: AncestralTree,
    b1: int,
    b2: int,
) -> bool {
    &&& 0 <= b2 < right.num_branches()
    &&& spec_equivalent(left, right, b1, b2)
    &&& forall|c: int| 0 <= c < b2 ==> !spec_equivalent(left, right, b1, c)
}

/// `b2` is the closest compatible branch of the later tree to branch `b1`:
/// it shares at least one leaf with `b1`, no branch shares more, and no
/// lower-numbered branch shares as many.
pub open spec fn spec_best_overlap_at(
    left: AncestralTree,
    right: AncestralTree,
    b1: int,
    b2: int,
) -> bool {
    &&& 0 <= b2 < right.num_branches()
    &&& spec_overlap(left, right, b1, b2) > 0
    &&& forall|c: int|
        0 <= c < right.num_branches() ==> #[trigger] spec_overlap(left, right, b1, c)
            <= spec_overlap(left, right, b1, b2)
    &&& forall|c: int|
        0 <= c < b2 ==> #[trigger] spec_overlap(left, right, b1, c) < spec_overlap(
            left,
            right,
            b1,
            b2,
        )
}

/// What a correct entry of the correspondence says of branch `b1` of the
/// earlier tree.  It names the lowest-numbered branch of the later tree
/// with `b1`'s exact leaf partition; where topology drift at the boundary
/// leaves no exact match, it names the closest compatible branch instead —
/// the one sharing the most leaves, at the lowest index among the maximal.
/// Only a branch sharing no leaf with any branch of the later tree stays
/// unmatched.
pub open spec fn spec_entry_ok(
    left: AncestralTree,
    right: AncestralTree,
    b1: int,
    e: Option<usize>,
) -> bool {
    match e {
        Some(b2) => if spec_has_exact(left, right, b1) {
            spec_least_exact_at(left, right, b1, b2 as int)
        } else {
            spec_best_overlap_at(left, right, b1, b2 as int)
        },
        None => {
            &&& !spec_has_exact(left, right, b1)
            &&& forall|c: int|
                0 <= c < right.num_branches() ==> #[trigger] spec_overlap(left, right, b1, c) <= 0
        },
    }
}

/// The branch correspondence across one section boundary: entry `b1` names
/// the branch of the later section's tree judged to represent the same
/// lineage as branch `b1` of the earlier section's tree.
#[derive(Debug)]
pub struct BranchEquivalenceMap {
    pub pairs: Vec<Option<usize>>,
}

/// What a correct correspondence for one boundary says: one entry per
/// branch of the earlier tree, each as [`spec_entry_ok`] demands.
pub open spec fn spec_valid_equivalence(
    left: AncestralTree,
    right: AncestralTree,
    m: Seq<Option<usize>>,
) -> bool {
    &&& m.len() == left.num_branches()
    &&& forall|b1: int| 0 <= b1 < m.len() ==> spec_entry_ok(left, right, b1, #[trigger] m[b1])
}

/// Whether two leaf partitions are the same.
fn signatures_equal(a: &Vec<bool>, b: &Vec<bool>) -> (r: bool)
    ensures
        r == (a@ == b@),
{
    if a.len() != b.len() {
        return false;
    }
    let mut k: usize = 0;
    while k < a.len()
        invariant
            a@.len() == b@.len(),
            k <= a@.len(),
            forall|j: int| 0 <= j < k ==> a@[j] == b@[j],
        decreases a@.len() - k,
    {
        if a[k] != b[k] {
            return false;
        }
        k = k + 1;
    }
    assert(a@ =~= b@);
    true
}

/// How many positions two leaf partitions both set.
fn common_count(a: &Vec<bool>, b: &Vec<bool>) -> (r: usize)
    requires
        a@.len() == b@.len(),
    ensures
        r == count_common(a@, b@),
{
    proof {
        assert(a@.take(0) =~= Seq::<bool>::empty());
    }
    let mut r: usize = 0;
    let mut k: usize = 0;
    while k < a.len()
        invariant
            a@.len() == b@.len(),
            k <= a@.len(),
            r <= k,
            r == count_common(a@.take(k as int), b@.take(k as int)),
        decreases a@.len() - k,
    {
        if a[k] && b[k] {
            r = r + 1;
        }
        proof {
            assert(a@.take(k + 1).drop_last() =~= a@.take(k as int));
            assert(b@.take(k + 1).drop_last() =~= b@.take(k as int));
            assert(a@.take(k + 1).last() == a@[k as int]);
            assert(b@.take(k + 1).last() == b@[k as int]);
            assert(r == count_common(a@.take(k + 1), b@.take(k + 1)));
        }
        k = k + 1;
    }
    proof {
        assert(a@.take(a@.len() as int) =~= a@);
        assert(b@.take(b@.len() as int) =~= b@);
    }
    r
}

/// The lowest-numbered signature of `right_sigs` equal to `sig1`, if any.
fn find_match(sig1: &Vec<bool>, right_sigs: &Vec<Vec<bool>>) -> (r: Option<usize>)
    ensures
        match r {
            Some(b2) => {
                &&& b2 < right_sigs@.len()
                &&& sig1@ == right_sigs@[b2 as int]@
                &&& forall|c: int| 0 <= c < b2 ==> sig1@ != (#[trigger] right_sigs@[c])@
            },
            None => forall|c: int|
                0 <= c < right_sigs@.len() ==> sig1@ != (#[trigger] right_sigs@[c])@,
        },
{
    let mut b2: usize = 0;
    while b2 < right_sigs.len()
        invariant
            b2 <= right_sigs@.len(),
            forall|c: int| 0 <= c < b2 ==> sig1@ != (#[trigger] right_sigs@[c])@,
        decreases right_sigs@.len() - b2,
    {
        if signatures_equal(sig1, &right_sigs[b2]) {
            return Some(b2);
        }
        b2 = b2 + 1;
    }
    None
}

/// The signature of `right_sigs` sharing the most set positions with
/// `sig1`, at the lowest index among the maximal, with its share count.
fn find_best_overlap(sig1: &Vec<bool>, right_sigs: &Vec<Vec<bool>>) -> (r: (usize, usize))
    requires
        right_sigs@.len() >= 1,
        forall|c: int|
            0 <= c < right_sigs@.len() ==> (#[trigger] right_sigs@[c])@.len() == sig1@.len(),
    ensures
        r.0 < right_sigs@.len(),
        r.1 == count_common(sig1@, right_sigs@[r.0 as int]@),
        forall|c: int|
            0 <= c < right_sigs@.len() ==> count_common(sig1@, (#[trigger] right_sigs@[c])@)
                <= r.1,
        forall|c: int| 0 <= c < r.0 ==> count_common(sig1@, (#[trigger] right_sigs@[c])@) < r.1,
{
    let mut best_idx: usize = 0;
    let mut best_score = common_count(sig1, &right_sigs[0]);
    let mut c: usize = 1;
    while c < right_sigs.len()
        invariant
            right_sigs@.len() >= 1,
            forall|d: int|
                0 <= d < right_sigs@.len() ==> (#[trigger] right_sigs@[d])@.len() == sig1@.len(),
            1 <= c <= right_sigs@.len(),
            best_idx < c,
            best_score == count_common(sig1@, right_sigs@[best_idx as int]@),
            forall|d: int|
                0 <= d < c ==> count_common(sig1@, (#[trigger] right_sigs@[d])@) <= best_score,
            forall|d: int|
                0 <= d < best_idx ==> count_common(sig1@, (#[trigger] right_sigs@[d])@)
                    < best_score,
        decreases right_sigs@.len() - c,
    {
        let s = common_count(sig1, &right_sigs[c]);
        if s > best_score {
            best_idx = c;
            best_score = s;
        }
        c = c + 1;
    }
    (best_idx, best_score)
}

/// The leaf partitions of every branch of `t`, in branch order.
fn all_signatures(t: &AncestralTree) -> (r: Vec<Vec<bool>>)
    requires
        t.wf(),
    ensures
        r@.len() == t.num_branches(),
        forall|b: int| 0 <= b < r@.len() ==> (#[trigger] r@[b])@ == spec_leaf_signature(*t, b),
{
    let mut r: Vec<Vec<bool>> = Vec::new();
    let mut b: usize = 0;
    let n = t.parent.len();
    while b < n
        invariant
            t.wf(),
            n == t.num_branches(),
            b <= n,
            r@.len() == b,
            forall|c: int| 0 <= c < b ==> (#[trigger] r@[c])@ == spec_leaf_signature(*t, c),
        decreases n - b,
    {
        let sig = leaf_signature(t, b);
        r.push(sig);
        b = b + 1;
    }
    r
}

/// The branch correspondence between the trees of two adjacent sections.
///
/// Branches are matched by identical leaf partition; where topology drift
/// at the boundary leaves a branch without an exact match, the closest
/// compatible branch — the one with maximal leaf-set overlap — is chosen
/// instead.  A branch sharing no leaf with any branch of the later tree
/// stays unmatched.
pub fn find_equivalent_pair(left: &AncestralTree, right: &AncestralTree) -> (m:
    BranchEquivalenceMap)
    requires
        left.wf(),
        right.wf(),
        left.num_samples == right.num_samples,
    ensures
        spec_valid_equivalence(*left, *right, m.pairs@),
{
    let right_sigs = all_signatures(right);
    let mut pairs: Vec<Option<usize>> = Vec::new();
    let mut b1: usize = 0;
    let n1 = left.parent.len();
    while b1 < n1
        invariant
            left.wf(),
            right.wf(),
            left.num_samples == right.num_samples,
            n1 == left.num_branches(),
            right_sigs@.len() == right.num_branches(),
            forall|b: int|
                0 <= b < right_sigs@.len() ==> (#[trigger] right_sigs@[b])@ == spec_leaf_signature(
                    *right,
                    b,
                ),
            b1 <= n1,
            pairs@.len() == b1,
            forall|c: int| 0 <= c < b1 ==> spec_entry_ok(*left, *right, c, #[trigger] pairs@[c]),
        decreases n1 - b1,
    {
        let sig1 = leaf_signature(left, b1);
        let found = match find_match(&sig1, &right_sigs) {
            Some(b2) => {
                proof {
                    assert(spec_equivalent(*left, *right, b1 as int, b2 as int));
                    assert(spec_has_exact(*left, *right, b1 as int));
                    assert forall|d: int| 0 <= d < b2 implies !spec_equivalent(
                        *left,
                        *right,
                        b1 as int,
                        d,
                    ) by {
                        assert(sig1@ != right_sigs@[d]@);
                        assert(right_sigs@[d]@ == spec_leaf_signature(*right, d));
                    }
                }
                Some(b2)
            },
            None => {
                proof {
                    assert forall|d: int| 0 <= d < right.num_branches() implies !spec_equivalent(
                        *left,
                        *right,
                        b1 as int,
                        d,
                    ) by {
                        assert(sig1@ != right_sigs@[d]@);
                        assert(right_sigs@[d]@ == spec_leaf_signature(*right, d));
                    }
                    assert(!spec_has_exact(*left, *right, b1 as int));
                }
                let (best_idx, best_score) = find_best_overlap(&sig1, &right_sigs);
                proof {
                    assert forall|d: int|
                        0 <= d < right.num_branches() implies #[trigger] spec_overlap(
                        *left,
                        *right,
                        b1 as int,
                        d,
                    ) <= best_score by {
                        assert(count_common(sig1@, right_sigs@[d]@) <= best_score);
                    }
                    assert forall|d: int| 0 <= d < best_idx implies #[trigger] spec_overlap(
                        *left,
                        *right,
                        b1 as int,
                        d,
                    ) < best_score by {
                        assert(count_common(sig1@, right_sigs@[d]@) < best_score);
                    }
                    assert(spec_overlap(*left, *right, b1 as int, best_idx as int)
                        == best_score);
                }
                if best_score > 0 {
                    Some(best_idx)
                } else {
                    None
                }
            },
        };
        proof {
            assert(spec_entry_ok(*left, *right, b1 as int, found));
        }
        pairs.push(found);
        b1 = b1 + 1;
    }
    BranchEquivalenceMap { pairs }
}

/// The branch-equivalence stage for one chunk: the trees of its sections
/// are compared pairwise across each section boundary.
pub struct FindEquivalentBranches {
    /// Index of the chunk whose adjacent sections are compared.
    pub chunk_index: usize,
}

impl FindEquivalentBranches {
    /// Match branches across every pair of adjacent sections of the chunk.
    ///
    /// The trees come in ascending section order and must all be well-formed
    /// trees over the same sample set; otherwise the stage reports an
    /// invalid invocation and produces nothing.
    pub fn execute(&self, trees: &Vec<AncestralTree>) -> (r: Result<
        Vec<BranchEquivalenceMap>,
        PipelineError,
    >)
        ensures
            r is Ok <==> (forall|i: int|
                0 <= i < trees@.len() ==> (#[trigger] trees@[i]).wf() && trees@[i].num_samples
                    == trees@[0].num_samples),
            match r {
                Ok(maps) => {
                    &&& maps@.len() == if trees@.len() == 0 {
                        0int
                    } else {
                        trees@.len() - 1
                    }
                    &&& forall|i: int|
                        0 <= i < maps@.len() ==> spec_valid_equivalence(
                            trees@[i],
                            trees@[i + 1],
                            (#[trigger] maps@[i]).pairs@,
                        )
                },
                Err(e) => e == PipelineError::ValueError,
            },
    {
        let n = trees.len();
        let mut i: usize = 0;
        while i < n
            invariant
                n == trees@.len(),
                i <= n,
                forall|j: int|
                    0 <= j < i ==> (#[trigger] trees@[j]).wf() && trees@[j].num_samples
                        == trees@[0].num_samples,
            decreases n - i,
        {
            if !trees[i].is_well_formed() || trees[i].num_samples != trees[0].num_samples {
                return Err(PipelineError::ValueError);
            }
            i = i + 1;
        }
        let mut maps: Vec<BranchEquivalenceMap> = Vec::new();
        if n == 0 {
            return Ok(maps);
        }
        let mut a: usize = 0;
        while a < n - 1
            invariant
                n == trees@.len(),
                1 <= n,
                forall|j: int|
                    0 <= j < n ==> (#[trigger] trees@[j]).wf() && trees@[j].num_samples
                        == trees@[0].num_samples,
                a <= n - 1,
                maps@.len() == a,
                forall|j: int|
                    0 <= j < a ==> spec_valid_equivalence(
                        trees@[j],
                        trees@[j + 1],
                        (#[trigger] maps@[j]).pairs@,
                    ),
            decreases n - 1 - a,
        {
            let m = find_equivalent_pair(&trees[a], &trees[a + 1]);
            maps.push(m);
            a = a + 1;
        }
        Ok(maps)
    }
}

} // verus!
