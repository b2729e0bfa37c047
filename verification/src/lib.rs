//! Core pipeline logic for genome-wide genealogy estimation.
//!
//! The genome is split into chunks, each chunk into a sequence of windows
//! ("sections"); one local ancestral tree is built per section, branches are
//! matched across adjacent sections, and the per-section results are combined
//! into chunk-level and genome-wide outputs.  This crate holds the verified
//! backbone of that pipeline: the chunk parameter descriptor and its binary
//! layout, section span and range arithmetic, deterministic seeding of the
//! per-section tree construction, the ancestral-tree arena and its
//! well-formedness invariants, branch-equivalence matching, and the
//! section-combining rules.  File handling and the native numeric kernels
//! live outside this crate.

pub mod errors;
pub mod params;
pub mod sections;
pub mod seeding;
pub mod tree;
pub mod equiv;
pub mod topology;
pub mod mutations;
pub mod painting;
pub mod combine;
pub mod chunks;
pub mod finalize;
pub mod lengths;
