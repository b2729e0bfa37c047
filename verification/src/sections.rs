use vstd::prelude::*;

verus! {

use crate::errors::PipelineError;
use crate::params::Parameters;
use crate::params::lemma_boundaries_strictly_increasing;
use crate::params::lemma_boundary_bounded;

/// The inclusive start of section `i`: its window boundary.
pub open spec fn spec_section_start(p: Parameters, i: int) -> int {
    p.window_boundaries@[i] as int
}

/// The inclusive end of section `i`: the position just before the next
/// window boundary, clamped so it never exceeds the last valid allele index.
pub open spec fn spec_section_end(p: Parameters, i: int) -> int {
    let raw = p.window_boundaries@[i + 1] - 1;
    if raw >= p.num_alleles {
        p.num_alleles - 1
    } else {
        raw
    }
}

/// Every section's span lies within the chunk: the start comes at or before
/// the end, and the end never exceeds the last valid allele index.
pub proof fn lemma_section_span_within_chunk(p: Parameters, i: int)
    requires
        p.wf(),
        0 <= i < p.num_windows,
    ensures
        spec_section_start(p, i) <= spec_section_end(p, i) < p.num_alleles,
{
    lemma_boundaries_strictly_increasing(p, i, p.num_windows as int);
    lemma_boundary_bounded(p, i + 1);
}

/// The genomic span of section `section`, as inclusive start and end allele
/// indices.
pub fn section_span(p: &Parameters, section: usize) -> (r: (usize, usize))
    requires
        p.wf(),
        section < p.num_windows,
    ensures
        r.0 == spec_section_start(*p, section as int),
        r.1 == spec_section_end(*p, section as int),
        r.0 <= r.1 < p.num_alleles,
{
    proof {
        lemma_section_span_within_chunk(*p, section as int);
    }
    let start = p.window_boundaries[section];
    let mut end = p.window_boundaries[section + 1] - 1;
    if end >= p.num_alleles {
        end = p.num_alleles - 1;
    }
    (start, end)
}

/// The first section of a requested range; an omitted request means the
/// first section of the chunk.
pub open spec fn spec_first_section(first: Option<usize>) -> int {
    match first {
        Some(f) => f as int,
        None => 0,
    }
}

/// The last section of a requested range before clamping; an omitted request
/// means the last section of the chunk.
pub open spec fn spec_requested_last(p: Parameters, last: Option<usize>) -> int {
    match last {
        Some(l) => l as int,
        None => p.num_windows - 1,
    }
}

/// The last section of a requested range, silently clamped to the last
/// section of the chunk.
pub open spec fn spec_clamped_last(p: Parameters, last: Option<usize>) -> int {
    if spec_requested_last(p, last) > p.num_windows - 1 {
        p.num_windows - 1
    } else {
        spec_requested_last(p, last)
    }
}

/// Resolve an optional requested section range against the descriptor.
///
/// A requested first section at or beyond the number of windows is a range
/// error, reported before anything is done; a requested last section beyond
/// the final section index is silently clamped to it.
pub fn resolve_section_range(p: &Parameters, first: Option<usize>, last: Option<usize>) -> (r:
    Result<(usize, usize), PipelineError>)
    requires
        p.wf(),
    ensures
        r is Ok <==> spec_first_section(first) < p.num_windows,
        match r {
            Ok(fl) => {
                &&& fl.0 == spec_first_section(first)
                &&& fl.1 == spec_clamped_last(*p, last)
                &&& fl.0 < p.num_windows
                &&& fl.1 < p.num_windows
            },
            Err(e) => e == PipelineError::ValueError,
        },
{
    let f = match first {
        Some(f0) => f0,
        None => 0,
    };
    if f >= p.num_windows {
        return Err(PipelineError::ValueError);
    }
    let requested = match last {
        Some(l0) => l0,
        None => p.num_windows - 1,
    };
    let l = if requested > p.num_windows - 1 {
        p.num_windows - 1
    } else {
        requested
    };
    Ok((f, l))
}

} // verus!
