//! Error kinds surfaced by the pipeline.
use vstd::prelude::*;

verus! {

/// The ways a run can fail.
///
/// - `AuthFailure`: the credentials or token were rejected; fatal.
/// - `NotFound`: a required input is absent (no cached snapshot on disk, or
///   the operator asked for a genre label that no artist carries).
/// - `CorruptData`: a cached snapshot exists but cannot be parsed.
/// - `TransientUpstream`: an upstream lookup failed; treated as a
///   rate-limit signal and retried.
/// - `PartialBatchFailure`: one of the playlist-write batches failed.
#[derive(Clone, Copy, Debug, PartialEq, Eq, Structural)]
pub enum PipelineError {
    AuthFailure,
    NotFound,
    CorruptData,
    TransientUpstream,
    PartialBatchFailure,
}

} // verus!
