use vstd::prelude::*;

verus! {

/// A rooted ancestral tree over the sample set of one section.
///
/// Branches live in an arena addressed by integer index.  Branches
/// `0 .. num_samples` are the leaves, one per sample; the later branches are
/// the ancestral lineages made as lineages coalesce.  `parent[i]` is the
/// parent branch of branch `i`, and the root — the last branch of the arena —
/// is its own parent.
#[derive(Debug)]
pub struct AncestralTree {
    pub num_samples: usize,
    pub parent: Vec<usize>,
}

impl AncestralTree {
    /// The number of branches of the arena.
    pub open spec fn num_branches(self) -> int {
        self.parent@.len() as int
    }

    /// The root branch: the last branch of the arena.
    pub open spec fn root(self) -> int {
        self.num_branches() - 1
    }

    /// The arena invariant.  A coalescent tree over `num_samples` leaves has
    /// exactly `2 * num_samples - 1` branches; every branch but the root
    /// points to a parent with a strictly larger index, so parent chains
    /// terminate and there are no cycles; the root alone is its own parent,
    /// so each section has exactly one root.
    pub open spec fn wf(self) -> bool {
        &&& 1 <= self.num_samples
        &&& self.parent@.len() == 2 * self.num_samples - 1
        &&& forall|i: int|
            0 <= i < self.root() ==> i < #[trigger] self.parent@[i] < self.parent@.len()
        &&& self.parent@[self.root()] == self.root()
    }


    /// Check the arena invariant of a tree value, for one read from outside
    /// the library.
    pub fn is_well_formed(&self) -> (r: bool)
        ensures
            r == self.wf(),
    {
        let len = self.parent.len();
        if self.num_samples < 1 || len < self.num_samples || len - self.num_samples
            != self.num_samples - 1 {
            return false;
        }
        if self.parent[len - 1] != len - 1 {
            return false;
        }
        let mut i: usize = 0;
        while i < len - 1
            invariant
                1 <= self.num_samples,
                len == self.parent@.len(),
                len == 2 * self.num_samples - 1,
                i <= len - 1,
                forall|j: int| 0 <= j < i ==> j < #[trigger] self.parent@[j] < len,
            decreases len - 1 - i,
        {
            let p = self.parent[i];
            if p <= i || p >= len {
                return false;
            }
            i = i + 1;
        }
        true
    }
}

/// Whether branch `b` lies on the parent chain that starts at branch `i`
/// (the chain includes `i` itself).
pub open spec fn on_chain(parent: Seq<usize>, i: int, b: int) -> bool
    decreases parent.len() - i,
    when 0 <= i < parent.len() && (forall|j: int|
        0 <= j < parent.len() ==> j <= #[trigger] parent[j] < parent.len())
{
    if i == b {
        true
    } else if parent[i] == i {
        false
    } else {
        on_chain(parent, parent[i] as int, b)
    }
}

/// The leaf partition a branch induces: one flag per sample leaf, set when
/// the leaf descends from the branch.
pub open spec fn spec_leaf_signature(t: AncestralTree, b: int) -> Seq<bool> {
    Seq::new(t.num_samples as nat, |l: int| on_chain(t.parent@, l, b))
}

/// How many entries of a boolean sequence are set.
pub open spec fn count_true(s: Seq<bool>) -> int
    decreases s.len(),
{
    if s.len() == 0 {
        0
    } else {
        count_true(s.drop_last()) + if s.last() {
            1int
        } else {
            0int
        }
    }
}

/// A sequence of set flags counts to its length.
proof fn lemma_count_true_full(s: Seq<bool>)
    requires
        forall|k: int| 0 <= k < s.len() ==> s[k],
    ensures
        count_true(s) == s.len(),
    decreases s.len(),
{
    if s.len() > 0 {
        lemma_count_true_full(s.drop_last());
    }
}

/// In a well-formed tree, the parent chain of every branch reaches the root.
pub proof fn lemma_all_reach_root(t: AncestralTree, i: int)
    requires
        t.wf(),
        0 <= i < t.num_branches(),
    ensures
        on_chain(t.parent@, i, t.root()),
    decreases t.num_branches() - i,
{
    if i != t.root() {
        lemma_all_reach_root(t, t.parent@[i] as int);
    }
}

/// The root of a well-formed tree reaches every sample leaf: its leaf
/// partition is full, and counting the leaves under the root gives exactly
/// the sample count.
pub proof fn lemma_root_reaches_all_leaves(t: AncestralTree)
    requires
        t.wf(),
    ensures
        forall|l: int| 0 <= l < t.num_samples ==> #[trigger] spec_leaf_signature(t, t.root())[l],
        count_true(spec_leaf_signature(t, t.root())) == t.num_samples,
{
    assert forall|l: int|
        0 <= l < t.num_samples implies #[trigger] spec_leaf_signature(t, t.root())[l] by {
        lemma_all_reach_root(t, l);
    }
    lemma_count_true_full(spec_leaf_signature(t, t.root()));
}

/// Whether branch `b` lies on the parent chain of branch `i`.
pub fn descends_from(t: &AncestralTree, i: usize, b: usize) -> (r: bool)
    requires
        t.wf(),
        i < t.num_branches(),
        b < t.num_branches(),
    ensures
        r == on_chain(t.parent@, i as int, b as int),
{
    let mut cur = i;
    loop
        invariant
            t.wf(),
            cur < t.num_branches(),
            b < t.num_branches(),
            on_chain(t.parent@, i as int, b as int) == on_chain(t.parent@, cur as int, b as int),
        decreases t.num_branches() - cur,
    {
        if cur == b {
            return true;
        }
        let p = self_parent_of(t, cur);
        if p == cur {
            return false;
        }
        cur = p;
    }
}

/// The parent of branch `i`.
fn self_parent_of(t: &AncestralTree, i: usize) -> (p: usize)
    requires
        t.wf(),
        i < t.num_branches(),
    ensures
        p == t.parent@[i as int],
        i <= p < t.num_branches(),
{
    t.parent[i]
}

/// The leaf partition induced by branch `b`, as one flag per sample.
pub fn leaf_signature(t: &AncestralTree, b: usize) -> (r: Vec<bool>)
    requires
        t.wf(),
        b < t.num_branches(),
    ensures
        r@ == spec_leaf_signature(*t, b as int),
{
    let mut r: Vec<bool> = Vec::new();
    let mut l: usize = 0;
    while l < t.num_samples
        invariant
            t.wf(),
            b < t.num_branches(),
            l <= t.num_samples,
            r@.len() == l,
            forall|k: int| 0 <= k < l ==> r@[k] == on_chain(t.parent@, k, b as int),
        decreases t.num_samples - l,
    {
        let d = descends_from(t, l, b);
        r.push(d);
        l = l + 1;
    }
    assert(r@ =~= spec_leaf_signature(*t, b as int));
    r
}

/// Count the sample leaves that descend from branch `b`.
pub fn reachable_leaf_count(t: &AncestralTree, b: usize) -> (c: usize)
    requires
        t.wf(),
        b < t.num_branches(),
    ensures
        c == count_true(spec_leaf_signature(*t, b as int)),
{
    let sig = leaf_signature(t, b);
    let mut c: usize = 0;
    let mut l: usize = 0;
    while l < sig.len()
        invariant
            sig@ == spec_leaf_signature(*t, b as int),
            l <= sig@.len(),
            c <= l,
            c == count_true(sig@.take(l as int)),
        decreases sig@.len() - l,
    {
        assert(sig@.take(l + 1).drop_last() =~= sig@.take(l as int));
        if sig[l] {
            c = c + 1;
        }
        l = l + 1;
    }
    assert(sig@.take(sig@.len() as int) =~= sig@);
    c
}

} // verus!
