use vstd::prelude::*;

verus! {

use crate::params::Parameters;
use crate::sections::spec_section_start;
use crate::sections::spec_section_end;
use crate::sections::section_span;
use crate::seeding::rng_draw;
use crate::seeding::spec_draws;
use crate::seeding::section_draws;
use crate::tree::AncestralTree;

/// One unit of tree-construction work: a section, its genomic span, and the
/// 32-bit seed its randomized construction consumes.
#[derive(Clone, Copy, PartialEq, Eq, Structural, Debug)]
pub struct SectionTask {
    pub section: usize,
    pub start_pos: usize,
    pub end_pos: usize,
    pub seed: i32,
}

/// The task of section `s` under `seed`.  The seed consumed for a section
/// is the `s`-th draw of the seeded sequence, whatever range the invocation
/// covers, so a run over a sub-range of sections reproduces the matching
/// part of a full run.
pub open spec fn spec_task(p: Parameters, seed: u64, s: int) -> SectionTask {
    SectionTask {
        section: s as usize,
        start_pos: spec_section_start(p, s) as usize,
        end_pos: spec_section_end(p, s) as usize,
        seed: rng_draw(seed, s as nat),
    }
}

/// The tasks of sections `first ..= last`, in ascending section order.
pub open spec fn spec_plan(p: Parameters, seed: u64, first: int, last: int) -> Seq<SectionTask> {
    Seq::new(
        if first <= last {
            (last - first + 1) as nat
        } else {
            0
        },
        |k: int| spec_task(p, seed, first + k),
    )
}

/// The per-section work of a topology run over sections `first ..= last`,
/// in ascending order: each section's genomic span and the seed its
/// construction consumes.
pub fn plan_topology(p: &Parameters, first: usize, last: usize, seed: u64) -> (r: Vec<SectionTask>)
    requires
        p.wf(),
        first < p.num_windows,
        last < p.num_windows,
    ensures
        r@ == spec_plan(*p, seed, first as int, last as int),
{
    let mut tasks: Vec<SectionTask> = Vec::new();
    if last < first {
        assert(tasks@ =~= spec_plan(*p, seed, first as int, last as int));
        return tasks;
    }
    let draws = section_draws(seed, last + 1);
    let mut s = first;
    while s <= last
        invariant
            p.wf(),
            first <= s <= last + 1,
            last < p.num_windows,
            draws@ == spec_draws(seed, (last + 1) as nat),
            tasks@.len() == s - first,
            forall|k: int| 0 <= k < tasks@.len() ==> tasks@[k] == spec_task(*p, seed, first + k),
        decreases last + 1 - s,
    {
        let (start, end) = section_span(p, s);
        tasks.push(SectionTask { section: s, start_pos: start, end_pos: end, seed: draws[s] });
        s = s + 1;
    }
    assert(tasks@ =~= spec_plan(*p, seed, first as int, last as int));
    tasks
}

/// Two topology plans made from the same descriptor, range and seed are
/// identical: the plan is a function of its inputs alone.
pub proof fn lemma_plan_deterministic(
    p: Parameters,
    seed: u64,
    first: int,
    last: int,
    r1: Seq<SectionTask>,
    r2: Seq<SectionTask>,
)
    requires
        r1 == spec_plan(p, seed, first, last),
        r2 == spec_plan(p, seed, first, last),
    ensures
        r1 == r2,
{
}

/// A run over a sub-range of sections reproduces exactly the tasks a full
/// run gives those sections, provided sections are processed in ascending
/// order: task `k` of the run over `a ..= b` is task `a + k` of the run
/// over `0 ..= full_last`.
pub proof fn lemma_plan_subrange(
    p: Parameters,
    seed: u64,
    a: int,
    b: int,
    full_last: int,
    k: int,
)
    requires
        0 <= a,
        a <= b <= full_last,
        0 <= k <= b - a,
    ensures
        spec_plan(p, seed, a, b)[k] == spec_plan(p, seed, 0, full_last)[a + k],
{
}

/// One step of the linear congruential generator that stretches a section's
/// 32-bit seed into the sequence of choices its construction consumes.
pub open spec fn spec_lcg_next(state: u64) -> u64 {
    (((state * 1664525 + 1013904223) as int) % 0x1_0000_0000) as u64
}

/// Advance the choice generator.
fn lcg_next(state: u64) -> (r: u64)
    requires
        state < 0x1_0000_0000,
    ensures
        r == spec_lcg_next(state),
        r < 0x1_0000_0000,
{
    (state * 1664525 + 1013904223) % 0x1_0000_0000
}

/// The state of a topology construction after some number of coalescences:
/// the parent arena built so far, the branches still active (the roots of
/// the current forest), and the choice generator's state.
pub ghost struct BuildState {
    pub parent: Seq<usize>,
    pub active: Seq<usize>,
    pub state: u64,
}

/// The construction's starting state for `n` samples: one active leaf
/// branch per sample, and the generator seeded with the section's draw.
pub open spec fn spec_initial_state(n: int, seed: i32) -> BuildState {
    BuildState {
        parent: Seq::new(n as nat, |i: int| i as usize),
        active: Seq::new(n as nat, |i: int| i as usize),
        state: (seed as u32) as u64,
    }
}

/// One coalescence: two active branches, picked by the choice generator,
/// are joined under a fresh branch, which becomes active in their place.
pub open spec fn spec_merge_step(st: BuildState) -> BuildState {
    let s1 = spec_lcg_next(st.state);
    let i = (s1 % (st.active.len() as u64)) as int;
    let a = st.active[i];
    let active1 = st.active.update(i, st.active.last()).drop_last();
    let s2 = spec_lcg_next(s1);
    let j = (s2 % (active1.len() as u64)) as int;
    let b = active1[j];
    let active2 = active1.update(j, active1.last()).drop_last();
    let fresh = st.parent.len() as usize;
    BuildState {
        parent: st.parent.update(a as int, fresh).update(b as int, fresh).push(fresh),
        active: active2.push(fresh),
        state: s2,
    }
}

/// The construction's state after `k` coalescences.
pub open spec fn spec_build_state(n: int, seed: i32, k: int) -> BuildState
    decreases k,
{
    if k <= 0 {
        spec_initial_state(n, seed)
    } else {
        spec_merge_step(spec_build_state(n, seed, k - 1))
    }
}

/// The parent arena of the topology built for `n` samples from the
/// section's seed: the state after the last of the `n - 1` coalescences.
pub open spec fn spec_topology(n: int, seed: i32) -> Seq<usize> {
    spec_build_state(n, seed, n - 1).parent
}

/// What holds of a construction's state after `k` coalescences: the arena
/// and the active list have their expected sizes, the active branches are
/// exactly the arena's self-parent branches, they are distinct, every
/// non-active branch points strictly upward, and the newest branch is
/// active.
pub open spec fn spec_state_inv(n: int, st: BuildState, k: int) -> bool {
    &&& st.parent.len() == n + k
    &&& st.active.len() == n - k
    &&& st.state < 0x1_0000_0000
    &&& forall|j: int| 0 <= j < st.active.len() ==> #[trigger] st.active[j] < st.parent.len()
    &&& forall|j1: int, j2: int| 0 <= j1 < j2 < st.active.len() ==> st.active[j1] != st.active[j2]
    &&& forall|j: int|
        0 <= j < st.active.len() ==> st.parent[#[trigger] st.active[j] as int] == st.active[j]
    &&& forall|x: int|
        0 <= x < st.parent.len() && !st.active.contains(x as usize) ==> x < #[trigger] st.parent[x]
    &&& forall|x: int| 0 <= x < st.parent.len() ==> x <= #[trigger] st.parent[x] < st.parent.len()
    &&& st.active.contains((st.parent.len() - 1) as usize)
}

/// What one swap-removal leaves of a distinct list: one fewer entry, every
/// remaining entry an original one other than the removed entry, every
/// other original entry kept, and distinctness preserved.
proof fn lemma_swap_remove_facts(s: Seq<usize>, i: int)
    requires
        0 <= i < s.len(),
        forall|j1: int, j2: int| 0 <= j1 < j2 < s.len() ==> s[j1] != s[j2],
    ensures
        ({
            let r = s.update(i, s.last()).drop_last();
            &&& r.len() == s.len() - 1
            &&& forall|idx: int|
                0 <= idx < r.len() ==> s.contains(#[trigger] r[idx]) && r[idx] != s[i]
            &&& forall|j1: int, j2: int| 0 <= j1 < j2 < r.len() ==> r[j1] != r[j2]
            &&& forall|x: usize| s.contains(x) && x != s[i] ==> r.contains(x)
        }),
{
    let r = s.update(i, s.last()).drop_last();
    assert forall|idx: int| 0 <= idx < r.len() implies s.contains(#[trigger] r[idx]) && r[idx]
        != s[i] by {
        if idx == i {
            assert(r[idx] == s[s.len() - 1]);
        } else {
            assert(r[idx] == s[idx]);
        }
    }
    assert forall|x: usize| s.contains(x) && x != s[i] implies r.contains(x) by {
        let w = choose|w: int| 0 <= w < s.len() && s[w] == x;
        if w == s.len() - 1 {
            if i < s.len() - 1 {
                assert(r[i] == x);
            }
        } else if w != i {
            assert(r[w] == x);
        }
    }
}

/// The construction's invariant, re-established for the state after one
/// coalescence, stated over the pieces of that state.
#[verifier::rlimit(100)]
proof fn lemma_coalesced_inv(n: int, k: int, st: BuildState, active2: Seq<usize>, a: usize, b: usize, state2: u64)
    requires
        2 <= n <= 0x3fff_ffff,
        0 <= k < n - 1,
        spec_state_inv(n, st, k),
        st.active.contains(a),
        st.active.contains(b),
        a != b,
        state2 < 0x1_0000_0000,
        active2.len() == st.active.len() - 2,
        forall|idx: int|
            0 <= idx < active2.len() ==> st.active.contains(#[trigger] active2[idx])
                && active2[idx] != a && active2[idx] != b,
        forall|j1: int, j2: int| 0 <= j1 < j2 < active2.len() ==> active2[j1] != active2[j2],
        forall|x: usize| st.active.contains(x) && x != a && x != b ==> active2.contains(x),
    ensures
        spec_state_inv(
            n,
            BuildState {
                parent: st.parent.update(a as int, st.parent.len() as usize).update(
                    b as int,
                    st.parent.len() as usize,
                ).push(st.parent.len() as usize),
                active: active2.push(st.parent.len() as usize),
                state: state2,
            },
            k + 1,
        ),
{
    let fresh = st.parent.len() as usize;
    let parent2 = st.parent.update(a as int, fresh).update(b as int, fresh).push(fresh);
    let act = active2.push(fresh);
    // everything now active is a self-parent branch of the new arena, below
    // its length, and the active branches are distinct
    assert forall|x: usize| #[trigger] st.active.contains(x) implies x < st.parent.len()
        && st.parent[x as int] == x by {
        let w = choose|w: int| 0 <= w < st.active.len() && st.active[w] == x;
    }
    assert(act[act.len() - 1] == fresh);
    assert(act.contains(fresh));
    assert forall|idx: int| 0 <= idx < act.len() implies #[trigger] act[idx] < parent2.len() by {
        if idx < act.len() - 1 {
            assert(st.active.contains(active2[idx]));
        }
    }
    assert forall|j1: int, j2: int| 0 <= j1 < j2 < act.len() implies act[j1] != act[j2] by {
        if j2 == act.len() - 1 {
            assert(st.active.contains(act[j1]));
        }
    }
    assert forall|idx: int| 0 <= idx < act.len() implies parent2[#[trigger] act[idx] as int]
        == act[idx] by {
        if idx < act.len() - 1 {
            let x = active2[idx];
            assert(st.active.contains(x) && x != a && x != b);
            assert(st.parent[x as int] == x);
        }
    }
    // every branch that is not active points strictly upward
    assert forall|x: int|
        0 <= x < parent2.len() && !act.contains(x as usize) implies x < #[trigger] parent2[x] by {
        if x == a as int || x == b as int {
            assert(parent2[x] == fresh);
        } else if x == fresh as int {
            assert(act.contains(fresh));
        } else {
            if st.active.contains(x as usize) {
                assert(active2.contains(x as usize));
                let w = choose|w: int| 0 <= w < active2.len() && active2[w] == x as usize;
                assert(act[w] == x as usize);
                assert(act.contains(x as usize));
            } else {
                assert(x < st.parent[x]);
            }
        }
    }
    assert forall|x: int| 0 <= x < parent2.len() implies x <= #[trigger] parent2[x]
        < parent2.len() by {
        if x == a as int || x == b as int {
            assert(parent2[x] == fresh);
        } else if x == fresh as int {
            assert(parent2[x] == fresh);
        }
    }
}

/// One coalescence preserves the construction's invariant.
#[verifier::rlimit(100)]
proof fn lemma_merge_step_preserves(n: int, st: BuildState, k: int)
    requires
        2 <= n <= 0x3fff_ffff,
        0 <= k < n - 1,
        spec_state_inv(n, st, k),
    ensures
        spec_state_inv(n, spec_merge_step(st), k + 1),
{
    let s1 = spec_lcg_next(st.state);
    let i = (s1 % (st.active.len() as u64)) as int;
    let a = st.active[i];
    let active1 = st.active.update(i, st.active.last()).drop_last();
    let s2 = spec_lcg_next(s1);
    let j = (s2 % (active1.len() as u64)) as int;
    let b = active1[j];
    let active2 = active1.update(j, active1.last()).drop_last();
    let next = spec_merge_step(st);
    assert(0 <= i < st.active.len());
    lemma_swap_remove_facts(st.active, i);
    assert(0 <= j < active1.len());
    lemma_swap_remove_facts(active1, j);
    assert(st.active.contains(a));
    assert(st.active.contains(b) && b != a);
    assert forall|idx: int|
        0 <= idx < active2.len() implies st.active.contains(#[trigger] active2[idx])
            && active2[idx] != a && active2[idx] != b by {
        assert(active1.contains(active2[idx]));
        let w = choose|w: int| 0 <= w < active1.len() && active1[w] == active2[idx];
        assert(st.active.contains(active1[w]) && active1[w] != a);
    }
    assert forall|x: usize| st.active.contains(x) && x != a && x != b implies active2.contains(
        x,
    ) by {
        assert(active1.contains(x));
    }
    lemma_coalesced_inv(n, k, st, active2, a, b, s2);
    assert(next.parent == st.parent.update(a as int, st.parent.len() as usize).update(
        b as int,
        st.parent.len() as usize,
    ).push(st.parent.len() as usize));
    assert(next.active == active2.push(st.parent.len() as usize));
    assert(next.state == s2);
}

/// Build the randomized tree topology of one section.
///
/// Starting from one active lineage per sample, lineages are coalesced
/// pairwise, the pair picked each time by the choice generator seeded with
/// the section's draw, until a single root remains.  The result is a
/// well-formed arena, and is a function of the sample count and the seed
/// alone.
#[verifier::rlimit(100)]
pub fn build_topology_tree(num_samples: usize, seed: i32) -> (t: AncestralTree)
    requires
        1 <= num_samples <= 0x3fff_ffff,
    ensures
        t.wf(),
        t.num_samples == num_samples,
        t.parent@ == spec_topology(num_samples as int, seed),
{
    let n = num_samples;
    let mut parent: Vec<usize> = Vec::new();
    let mut active: Vec<usize> = Vec::new();
    let mut i: usize = 0;
    while i < n
        invariant
            i <= n,
            parent@.len() == i,
            active@.len() == i,
            forall|j: int| 0 <= j < i ==> #[trigger] parent@[j] == j,
            forall|j: int| 0 <= j < i ==> #[trigger] active@[j] == j,
        decreases n - i,
    {
        parent.push(i);
        active.push(i);
        i = i + 1;
    }
    let mut state: u64 = seed as u32 as u64;
    let mut k: usize = 0;
    proof {
        assert(parent@ =~= spec_build_state(n as int, seed, 0).parent);
        assert(active@ =~= spec_build_state(n as int, seed, 0).active);
        assert(active@[n as int - 1] == (n - 1) as usize);
        assert(active@.contains((parent@.len() - 1) as usize));
    }
    while k < n - 1
        invariant
            1 <= n <= 0x3fff_ffff,
            k <= n - 1,
            parent@ == spec_build_state(n as int, seed, k as int).parent,
            active@ == spec_build_state(n as int, seed, k as int).active,
            state == spec_build_state(n as int, seed, k as int).state,
            spec_state_inv(
                n as int,
                spec_build_state(n as int, seed, k as int),
                k as int,
            ),
        decreases n - 1 - k,
    {
        let ghost st = spec_build_state(n as int, seed, k as int);
        proof {
            lemma_merge_step_preserves(n as int, st, k as int);
        }
        let s1 = lcg_next(state);
        let idx1 = (s1 % (active.len() as u64)) as usize;
        let a = active.swap_remove(idx1);
        let s2 = lcg_next(s1);
        let idx2 = (s2 % (active.len() as u64)) as usize;
        let b = active.swap_remove(idx2);
        let fresh = parent.len();
        proof {
            assert(a < parent@.len());
            assert(b < parent@.len()) by {
                assert(st.active.update(idx1 as int, st.active.last()).drop_last().contains(b)) by {
                    assert(st.active.update(idx1 as int, st.active.last()).drop_last()[idx2 as int]
                        == b);
                }
            }
        }
        parent.set(a, fresh);
        parent.set(b, fresh);
        parent.push(fresh);
        active.push(fresh);
        state = s2;
        proof {
            let next = spec_merge_step(st);
            assert(parent@ == next.parent);
            assert(active@ == next.active);
            assert(state == next.state);
            assert(spec_build_state(n as int, seed, k as int + 1) == next);
        }
        k = k + 1;
    }
    proof {
        assert(active@.len() == 1);
        let r = (parent@.len() - 1) as usize;
        assert(active@.contains(r));
        assert(active@[0] == r);
        assert forall|x: int| 0 <= x < parent@.len() - 1 implies x < #[trigger] parent@[x] by {
            if active@.contains(x as usize) {
                assert(active@[0] == x as usize);
            }
        }
        assert(parent@[r as int] == r);
    }
    AncestralTree { num_samples: n, parent }
}

/// The per-section topologies of a run over sections `first ..= last` of a
/// chunk with `num_samples` samples and seed `seed`.
pub open spec fn spec_section_topologies(
    p: Parameters,
    seed: u64,
    first: int,
    last: int,
) -> Seq<Seq<usize>> {
    spec_plan(p, seed, first, last).map_values(
        |t: SectionTask| spec_topology(p.num_samples as int, t.seed),
    )
}

/// Build the trees of sections `first ..= last` of a chunk, in ascending
/// section order.
pub fn build_section_trees(p: &Parameters, first: usize, last: usize, seed: u64) -> (r: Vec<
    AncestralTree,
>)
    requires
        p.wf(),
        first < p.num_windows,
        last < p.num_windows,
        p.num_samples <= 0x3fff_ffff,
    ensures
        r@.len() == spec_plan(*p, seed, first as int, last as int).len(),
        forall|k: int|
            0 <= k < r@.len() ==> {
                &&& (#[trigger] r@[k]).wf()
                &&& r@[k].num_samples == p.num_samples
                &&& r@[k].parent@ == spec_section_topologies(*p, seed, first as int, last as int)[k]
            },
{
    let tasks = plan_topology(p, first, last, seed);
    let mut trees: Vec<AncestralTree> = Vec::new();
    let mut k: usize = 0;
    while k < tasks.len()
        invariant
            p.wf(),
            1 <= p.num_samples <= 0x3fff_ffff,
            tasks@ == spec_plan(*p, seed, first as int, last as int),
            k <= tasks@.len(),
            trees@.len() == k,
            forall|j: int|
                0 <= j < k ==> {
                    &&& (#[trigger] trees@[j]).wf()
                    &&& trees@[j].num_samples == p.num_samples
                    &&& trees@[j].parent@ == spec_topology(
                        p.num_samples as int,
                        tasks@[j].seed,
                    )
                },
        decreases tasks@.len() - k,
    {
        let t = build_topology_tree(p.num_samples, tasks[k].seed);
        trees.push(t);
        k = k + 1;
    }
    trees
}

/// A run over a sub-range of sections builds exactly the topologies a full
/// run gives those sections, provided sections are processed in ascending
/// order: the seeds are indexed by section, not by position within the run.
pub proof fn lemma_topologies_subrange(
    p: Parameters,
    seed: u64,
    a: int,
    b: int,
    full_last: int,
    k: int,
)
    requires
        0 <= a,
        a <= b <= full_last,
        0 <= k <= b - a,
    ensures
        spec_section_topologies(p, seed, a, b)[k] == spec_section_topologies(
            p,
            seed,
            0,
            full_last,
        )[a + k],
{
    lemma_plan_subrange(p, seed, a, b, full_last, k);
}

/// Determinism: two runs over the same sections with identical inputs and
/// the same seed build identical per-section topologies.
pub proof fn lemma_build_deterministic(
    p: Parameters,
    seed: u64,
    first: int,
    last: int,
    r1: Seq<AncestralTree>,
    r2: Seq<AncestralTree>,
)
    requires
        r1.map_values(|t: AncestralTree| t.parent@) == spec_section_topologies(
            p,
            seed,
            first,
            last,
        ),
        r2.map_values(|t: AncestralTree| t.parent@) == spec_section_topologies(
            p,
            seed,
            first,
            last,
        ),
    ensures
        r1.map_values(|t: AncestralTree| t.parent@) == r2.map_values(
            |t: AncestralTree| t.parent@,
        ),
{
}

} // verus!
