use vstd::prelude::*;

verus! {

use rand::Rng;
use rand::SeedableRng;

/// The `index`-th 32-bit value drawn from rand's standard generator after it
/// was seeded with `seed`.  The draw sequence of a seed is a fixed function
/// of the seed alone; nothing further is assumed about its values.
pub uninterp spec fn rng_draw(seed: u64, index: nat) -> i32;

/// The first `count` values of the draw sequence of `seed`.
pub open spec fn spec_draws(seed: u64, count: nat) -> Seq<i32> {
    Seq::new(count, |k: int| rng_draw(seed, k as nat))
}

#[verifier::external_type_specification]
#[verifier::external_body]
pub struct ExStdRng(rand::rngs::StdRng);

/// A seeded pseudo-random source of 32-bit draws.
///
/// Randomness is threaded explicitly as a value like this one, never drawn
/// from ambient state, so that a stage's output is reproducible from its
/// seed alone.  The ghost fields record which seed made the generator and
/// how many draws it has handed out.
pub struct SectionRng {
    rng: rand::rngs::StdRng,
    seed: Ghost<u64>,
    drawn: Ghost<nat>,
}

impl SectionRng {
    /// The seed this generator was created from.
    pub closed spec fn seed(self) -> u64 {
        self.seed@
    }

    /// How many draws have been consumed so far.
    pub closed spec fn drawn(self) -> nat {
        self.drawn@
    }

    /// Relies on rand's `SeedableRng::seed_from_u64` for `StdRng`: the
    /// generator state is a deterministic function of the seed.
    #[verifier::external_body]
    pub fn from_seed(seed: u64) -> (r: SectionRng)
        ensures
            r.seed() == seed,
            r.drawn() == 0,
    {
        SectionRng {
            rng: rand::rngs::StdRng::seed_from_u64(seed),
            seed: Ghost(seed),
            drawn: Ghost(0),
        }
    }

    /// Relies on rand's `Rng::gen::<i32>` for `StdRng`: each draw is a
    /// deterministic function of the seed and of how many draws came before
    /// it, independent of process, machine and calling context.
    #[verifier::external_body]
    pub fn next_draw(&mut self) -> (d: i32)
        ensures
            final (self).seed() == old(self).seed(),
            final (self).drawn() == old(self).drawn() + 1,
            d == rng_draw(old(self).seed(), old(self).drawn()),
    {
        self.rng.gen()
    }
}

/// The per-section seeds for `count` sections, drawn in ascending section
/// order from one generator seeded with `seed`.
pub fn section_draws(seed: u64, count: usize) -> (r: Vec<i32>)
    ensures
        r@ == spec_draws(seed, count as nat),
{
    let mut rng = SectionRng::from_seed(seed);
    let mut out: Vec<i32> = Vec::new();
    while out.len() < count
        invariant
            rng.seed() == seed,
            rng.drawn() == out@.len(),
            out@.len() <= count,
            forall|k: int| 0 <= k < out@.len() ==> #[trigger] out@[k] == rng_draw(seed, k as nat),
        decreases count - out@.len(),
    {
        let d = rng.next_draw();
        out.push(d);
    }
    assert(out@ =~= spec_draws(seed, count as nat));
    out
}

} // verus!
