use vstd::prelude::*;

verus! {

use crate::errors::PipelineError;
use crate::finalize::ChunkSpan;
use crate::finalize::spec_mergeable;
use crate::params::Parameters;
use vstd::arithmetic::div_mod::lemma_div_is_ordered;
use vstd::arithmetic::div_mod::lemma_div_multiples_vanish;
use vstd::arithmetic::div_mod::lemma_div_pos_is_pos;
use vstd::arithmetic::div_mod::lemma_hoist_over_denominator;
use vstd::arithmetic::mul::lemma_mul_inequality;
use vstd::arithmetic::mul::lemma_mul_is_commutative;
use vstd::arithmetic::mul::lemma_mul_is_distributive_add_other_way;
use vstd::arithmetic::mul::lemma_mul_nonnegative;
use vstd::arithmetic::mul::lemma_mul_upper_bound;

/// Boundary `i` of a chunk whose `num_alleles` allele positions are divided
/// into `num_windows` windows of equal allele span.
pub open spec fn spec_even_boundary(num_alleles: int, num_windows: int, i: int) -> int {
    i * num_alleles / num_windows
}

/// Evenly divided window boundaries rise strictly from one window to the
/// next, provided each window spans at least one allele.
pub proof fn lemma_even_boundary_increases(num_alleles: int, num_windows: int, i: int)
    requires
        1 <= num_windows <= num_alleles,
        0 <= i < num_windows,
    ensures
        spec_even_boundary(num_alleles, num_windows, i) < spec_even_boundary(
            num_alleles,
            num_windows,
            i + 1,
        ),
{
    let lo = i * num_alleles;
    assert((i + 1) * num_alleles == lo + num_alleles) by {
        lemma_mul_is_distributive_add_other_way(num_alleles, i, 1);
    }
    lemma_mul_nonnegative(i, num_alleles);
    assert(lo / num_windows + 1 == (lo + num_windows) / num_windows) by {
        lemma_hoist_over_denominator(lo, 1, num_windows as nat);
    }
    lemma_div_is_ordered(lo + num_windows, lo + num_alleles, num_windows);
}

/// The first evenly divided boundary is the chunk's first allele position,
/// the last is its allele count, and every one lies between the two.
pub proof fn lemma_even_boundary_bounds(num_alleles: int, num_windows: int, i: int)
    requires
        1 <= num_windows <= num_alleles,
        0 <= i <= num_windows,
    ensures
        0 <= spec_even_boundary(num_alleles, num_windows, i) <= num_alleles,
        i == 0 ==> spec_even_boundary(num_alleles, num_windows, i) == 0,
        i == num_windows ==> spec_even_boundary(num_alleles, num_windows, i) == num_alleles,
{
    lemma_mul_nonnegative(i, num_alleles);
    lemma_div_pos_is_pos(i * num_alleles, num_windows);
    assert(i * num_alleles <= num_windows * num_alleles) by {
        lemma_mul_inequality(i, num_windows, num_alleles);
    }
    assert(num_windows * num_alleles / num_windows == num_alleles) by {
        lemma_mul_is_commutative(num_windows, num_alleles);
        lemma_div_multiples_vanish(num_alleles, num_windows);
    }
    lemma_div_is_ordered(i * num_alleles, num_windows * num_alleles, num_windows);
}

/// Partition the genome into chunks: split `num_alleles` allele positions
/// into contiguous chunks of at most `max_chunk` positions each.
///
/// The chunks cover the whole range exactly, in ascending order with no
/// gap or overlap, and every chunk but the last spans exactly `max_chunk`
/// positions.  How many positions one chunk may hold is the caller's to
/// fix from its memory allowance; here it must be at least one, and there
/// must be at least one position to cover.
pub fn plan_chunks(num_alleles: usize, max_chunk: usize) -> (r: Result<
    Vec<ChunkSpan>,
    PipelineError,
>)
    ensures
        r is Ok <==> (1 <= num_alleles && 1 <= max_chunk),
        match r {
            Ok(spans) => {
                &&& spans@.len() >= 1
                &&& spans@[0].start == 0
                &&& spans@[spans@.len() - 1].end == num_alleles
                &&& forall|i: int|
                    0 <= i < spans@.len() - 1 ==> (#[trigger] spans@[i]).end == spans@[i
                        + 1].start
                &&& forall|i: int|
                    0 <= i < spans@.len() - 1 ==> (#[trigger] spans@[i]).end - spans@[i].start
                        == max_chunk
                &&& forall|i: int|
                    0 <= i < spans@.len() ==> 1 <= (#[trigger] spans@[i]).end - spans@[i].start
                        <= max_chunk
                &&& spec_mergeable(spans@)
            },
            Err(e) => e == PipelineError::ValueError,
        },
{
    if num_alleles < 1 || max_chunk < 1 {
        return Err(PipelineError::ValueError);
    }
    let mut spans: Vec<ChunkSpan> = Vec::new();
    let mut start: usize = 0;
    while num_alleles - start > max_chunk
        invariant
            1 <= max_chunk,
            start < num_alleles,
            spans@.len() == 0 ==> start == 0,
            spans@.len() >= 1 ==> spans@[0].start == 0,
            spans@.len() >= 1 ==> spans@[spans@.len() - 1].end == start,
            forall|i: int|
                0 <= i < spans@.len() - 1 ==> (#[trigger] spans@[i]).end == spans@[i + 1].start,
            forall|i: int|
                0 <= i < spans@.len() ==> (#[trigger] spans@[i]).end - spans@[i].start
                    == max_chunk,
        decreases num_alleles - start,
    {
        spans.push(ChunkSpan { start, end: start + max_chunk });
        start = start + max_chunk;
    }
    spans.push(ChunkSpan { start, end: num_alleles });
    proof {
        assert forall|i: int| 0 <= i < spans@.len() implies (#[trigger] spans@[i]).start
            < spans@[i].end by {}
        assert(spec_mergeable(spans@));
    }
    Ok(spans)
}

/// Create the parameter descriptor of one chunk, dividing its allele range
/// into `num_windows` windows of equal allele span.
///
/// A descriptor comes back exactly when the counts fit the binary layout's
/// 32-bit words, there is at least one sample and one window, and there are
/// at least as many alleles as windows, so that every window spans at least
/// one allele.
pub fn make_descriptor(num_samples: usize, num_alleles: usize, num_windows: usize) -> (r: Result<
    Parameters,
    PipelineError,
>)
    ensures
        r is Ok <==> {
            &&& 1 <= num_samples <= 0x7fff_ffff
            &&& num_alleles <= 0x7fff_ffff
            &&& 1 <= num_windows < 0x7fff_ffff
            &&& num_windows <= num_alleles
        },
        match r {
            Ok(p) => {
                &&& p.wf()
                &&& p.num_samples == num_samples
                &&& p.num_alleles == num_alleles
                &&& p.num_windows == num_windows
                &&& forall|i: int|
                    0 <= i <= num_windows ==> #[trigger] p.window_boundaries@[i]
                        == spec_even_boundary(num_alleles as int, num_windows as int, i)
            },
            Err(e) => e == PipelineError::ValueError,
        },
{
    if num_samples < 1 || num_samples > 0x7fff_ffff || num_alleles > 0x7fff_ffff || num_windows < 1
        || num_windows >= 0x7fff_ffff || num_windows > num_alleles {
        return Err(PipelineError::ValueError);
    }
    let mut boundaries: Vec<usize> = Vec::new();
    let mut i: usize = 0;
    while i <= num_windows
        invariant
            1 <= num_windows <= num_alleles <= 0x7fff_ffff,
            i <= num_windows + 1,
            boundaries@.len() == i,
            forall|j: int|
                0 <= j < i ==> #[trigger] boundaries@[j] == spec_even_boundary(
                    num_alleles as int,
                    num_windows as int,
                    j,
                ),
        decreases num_windows + 1 - i,
    {
        proof {
            lemma_even_boundary_bounds(num_alleles as int, num_windows as int, i as int);
            assert((i as u64) * (num_alleles as u64) <= (num_windows as u64) * (num_alleles
                as u64)) by {
                lemma_mul_inequality(i as int, num_windows as int, num_alleles as int);
            }
            assert((num_windows as u64) * (num_alleles as u64) < 0x4000_0000_0000_0000) by {
                lemma_mul_upper_bound(num_windows as int, 0x7fff_ffff, num_alleles as int, 0x7fff_ffff);
            }
        }
        let b = ((i as u64) * (num_alleles as u64) / (num_windows as u64)) as usize;
        boundaries.push(b);
        i = i + 1;
    }
    let p = Parameters { num_samples, num_alleles, num_windows, window_boundaries: boundaries };
    proof {
        assert forall|j: int| 0 <= j < num_windows implies #[trigger] p.window_boundaries@[j]
            < p.window_boundaries@[j + 1] by {
            lemma_even_boundary_increases(num_alleles as int, num_windows as int, j);
        }
        lemma_even_boundary_bounds(
            num_alleles as int,
            num_windows as int,
            num_windows as int,
        );
    }
    Ok(p)
}

} // verus!
