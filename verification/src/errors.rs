use vstd::prelude::*;

verus! {

/// Errors reported by the pipeline stages.
///
/// Every stage checks its preconditions before doing any work, so an error
/// always comes back before anything has been produced.
#[derive(Clone, Copy, Debug, PartialEq, Eq, Structural)]
pub enum PipelineError {
    /// An invalid invocation: a requested section index lies at or beyond the
    /// number of windows of the chunk.
    ValueError,
    /// A parameter descriptor whose bytes do not form a valid descriptor.
    MalformedParameters,
}

} // verus!
