use vstd::prelude::*;

verus! {

use crate::equiv::BranchEquivalenceMap;

/// The earliest (lowest-numbered) branch of the earlier section that a
/// correspondence links to branch `b2` of the later section.
pub open spec fn spec_first_link(m: Seq<Option<usize>>, b2: usize) -> Option<int>
    decreases m.len(),
{
    if m.len() == 0 {
        None
    } else if m[0] == Some(b2) {
        Some(0)
    } else {
        match spec_first_link(m.drop_first(), b2) {
            Some(i) => Some(i + 1),
            None => None,
        }
    }
}

/// What [`spec_first_link`] names: the lowest index of `m` that links to
/// `b2`, or nothing when no entry does.
pub proof fn lemma_first_link_characterization(m: Seq<Option<usize>>, b2: usize)
    ensures
        match spec_first_link(m, b2) {
            Some(i) => {
                &&& 0 <= i < m.len()
                &&& m[i] == Some(b2)
                &&& forall|c: int| 0 <= c < i ==> m[c] != Some(b2)
            },
            None => forall|c: int| 0 <= c < m.len() ==> m[c] != Some(b2),
        },
    decreases m.len(),
{
    if m.len() > 0 && m[0] != Some(b2) {
        let sub = m.drop_first();
        lemma_first_link_characterization(sub, b2);
        match spec_first_link(sub, b2) {
            Some(i) => {
                assert(m[i + 1] == sub[i]);
                assert forall|c: int| 0 <= c < i + 1 implies m[c] != Some(b2) by {
                    if c > 0 {
                        assert(sub[c - 1] == m[c]);
                    }
                }
            },
            None => {
                assert forall|c: int| 0 <= c < m.len() implies m[c] != Some(b2) by {
                    if c > 0 {
                        assert(sub[c - 1] == m[c]);
                    }
                }
            },
        }
    }
}

/// The reconciled branch lengths of the later section of one boundary:
/// every branch linked from the earlier section takes the earlier
/// section's value, every other branch keeps its own.
pub open spec fn spec_combine_pair(
    earlier: Seq<u64>,
    later: Seq<u64>,
    m: Seq<Option<usize>>,
) -> Seq<u64> {
    Seq::new(
        later.len(),
        |b2: int|
            match spec_first_link(m, b2 as usize) {
                Some(b1) => earlier[b1],
                None => later[b2],
            },
    )
}

/// The lowest-numbered entry of `m` that links to `b2`.
fn first_link(m: &Vec<Option<usize>>, b2: usize) -> (r: Option<usize>)
    ensures
        match r {
            Some(b1) => b1 < m@.len() && spec_first_link(m@, b2) == Some(b1 as int),
            None => spec_first_link(m@, b2) is None,
        },
{
    proof {
        lemma_first_link_characterization(m@, b2);
    }
    let mut i: usize = 0;
    while i < m.len()
        invariant
            i <= m@.len(),
            forall|c: int| 0 <= c < i ==> m@[c] != Some(b2),
        decreases m@.len() - i,
    {
        let hit = match m[i] {
            Some(x) => x == b2,
            None => false,
        };
        if hit {
            proof {
                lemma_first_link_characterization(m@, b2);
                match spec_first_link(m@, b2) {
                    Some(j) => {
                        if j < i {
                            assert(m@[j] == Some(b2));
                        }
                        if j > i {
                            assert(m@[i as int] != Some(b2));
                        }
                    },
                    None => {
                        assert(m@[i as int] != Some(b2));
                    },
                }
            }
            return Some(i);
        }
        i = i + 1;
    }
    proof {
        lemma_first_link_characterization(m@, b2);
    }
    None
}

/// Carry branch lengths across one section boundary.
///
/// Where the correspondence links a branch of the earlier section to a
/// branch of the later one, both stand for the same lineage, and the later
/// branch takes the earlier section's time estimate — the earlier estimate
/// is canonical.  Branches the correspondence leaves unmatched keep their
/// own estimates.  Lengths are carried as opaque 64-bit time values: the
/// combiner moves them, it never computes with them.
pub fn combine_pair(earlier: &Vec<u64>, later: &Vec<u64>, links: &BranchEquivalenceMap) -> (r: Vec<
    u64,
>)
    requires
        links.pairs@.len() <= earlier@.len(),
    ensures
        r@ == spec_combine_pair(earlier@, later@, links.pairs@),
{
    let mut r: Vec<u64> = Vec::new();
    let mut b2: usize = 0;
    while b2 < later.len()
        invariant
            links.pairs@.len() <= earlier@.len(),
            b2 <= later@.len(),
            r@.len() == b2,
            forall|c: int|
                0 <= c < b2 ==> #[trigger] r@[c] == spec_combine_pair(
                    earlier@,
                    later@,
                    links.pairs@,
                )[c],
        decreases later@.len() - b2,
    {
        let link = first_link(&links.pairs, b2);
        let v = match link {
            Some(b1) => {
                proof {
                    lemma_first_link_characterization(links.pairs@, b2);
                }
                earlier[b1]
            },
            None => later[b2],
        };
        r.push(v);
        b2 = b2 + 1;
    }
    assert(r@ =~= spec_combine_pair(earlier@, later@, links.pairs@));
    r
}

/// Combine consistency: where the correspondence declares branch `b1` of
/// the earlier section equivalent to branch `b2` of the later one (as the
/// earliest linked branch), the combined output assigns the same scalar
/// value — the earlier section's — to both occurrences of that lineage.
pub proof fn lemma_combine_consistent(
    earlier: Seq<u64>,
    later: Seq<u64>,
    m: Seq<Option<usize>>,
    b1: int,
    b2: usize,
)
    requires
        m.len() <= earlier.len(),
        b2 < later.len(),
        spec_first_link(m, b2) == Some(b1),
    ensures
        spec_combine_pair(earlier, later, m)[b2 as int] == earlier[b1],
{
}

/// The reconciled lengths of every section of a chunk, in ascending
/// genomic order: section 0 keeps its own estimates, and each later
/// section takes the already-reconciled estimates of its predecessor
/// across the boundary correspondence, so the earliest section's estimate
/// of a lineage is canonical throughout.
pub open spec fn spec_combine_chain(
    sections: Seq<Seq<u64>>,
    links: Seq<Seq<Option<usize>>>,
    i: int,
) -> Seq<u64>
    decreases i,
{
    if i <= 0 {
        sections[0]
    } else {
        spec_combine_pair(spec_combine_chain(sections, links, i - 1), sections[i], links[i - 1])
    }
}

/// Concatenate all sections of a chunk into one reconciled sequence of
/// branch-length assignments, in ascending genomic order.
pub fn combine_sections(sections: &Vec<Vec<u64>>, links: &Vec<BranchEquivalenceMap>) -> (r: Vec<
    Vec<u64>,
>)
    requires
        sections@.len() >= 1,
        links@.len() == sections@.len() - 1,
        forall|i: int|
            0 <= i < links@.len() ==> (#[trigger] links@[i]).pairs@.len() <= sections@[i]@.len(),
        forall|i: int, j: int|
            0 <= i < sections@.len() && 0 <= j < sections@.len() ==> (#[trigger] sections@[i])@.len()
                == (#[trigger] sections@[j])@.len(),
    ensures
        r@.len() == sections@.len(),
        forall|i: int|
            0 <= i < r@.len() ==> (#[trigger] r@[i])@ == spec_combine_chain(
                sections@.map_values(|s: Vec<u64>| s@),
                links@.map_values(|l: BranchEquivalenceMap| l.pairs@),
                i,
            ),
{
    let ghost gsections = sections@.map_values(|s: Vec<u64>| s@);
    let ghost glinks = links@.map_values(|l: BranchEquivalenceMap| l.pairs@);
    let mut r: Vec<Vec<u64>> = Vec::new();
    let mut prev: Vec<u64> = clone_lengths(&sections[0]);
    r.push(clone_lengths(&sections[0]));
    let mut i: usize = 1;
    while i < sections.len()
        invariant
            sections@.len() >= 1,
            links@.len() == sections@.len() - 1,
            gsections == sections@.map_values(|s: Vec<u64>| s@),
            glinks == links@.map_values(|l: BranchEquivalenceMap| l.pairs@),
            forall|a: int|
                0 <= a < links@.len() ==> (#[trigger] links@[a]).pairs@.len()
                    <= sections@[a]@.len(),
            forall|a: int, b: int|
                0 <= a < sections@.len() && 0 <= b < sections@.len() ==> (#[trigger] sections@[a])@.len()
                    == (#[trigger] sections@[b])@.len(),
            1 <= i <= sections@.len(),
            r@.len() == i,
            prev@ == spec_combine_chain(gsections, glinks, i - 1),
            prev@.len() == sections@[0]@.len(),
            forall|a: int|
                0 <= a < i ==> (#[trigger] r@[a])@ == spec_combine_chain(gsections, glinks, a),
        decreases sections@.len() - i,
    {
        let next = combine_pair(&prev, &sections[i], &links[i - 1]);
        proof {
            assert(next@ == spec_combine_chain(gsections, glinks, i as int));
        }
        r.push(clone_lengths(&next));
        prev = next;
        i = i + 1;
    }
    r
}

/// Copy one section's length assignment.
fn clone_lengths(v: &Vec<u64>) -> (r: Vec<u64>)
    ensures
        r@ == v@,
{
    let mut r: Vec<u64> = Vec::new();
    let mut i: usize = 0;
    while i < v.len()
        invariant
            i <= v@.len(),
            r@ == v@.take(i as int),
        decreases v@.len() - i,
    {
        proof {
            assert(v@.take(i + 1) =~= v@.take(i as int).push(v@[i as int]));
        }
        r.push(v[i]);
        i = i + 1;
    }
    proof {
        assert(v@.take(v@.len() as int) =~= v@);
    }
    r
}

} // verus!
