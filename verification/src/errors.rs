//! The closed error taxonomy of the download manager.

use vstd::prelude::*;

verus! {

/// Everything that can go wrong in the manager, its store, or a fetch.
///
/// `AlreadyRunning` and `NotFound` are task conflicts reported to the
/// caller with no state mutated; the others mark a failed attempt whose
/// only recovery path is an explicit restart or the startup sweep.
#[derive(Clone, Copy, Debug, PartialEq, Eq, Structural)]
pub enum DownloadError {
    /// A fetch or size probe got a non-success response or an impossible
    /// byte count.
    Network,
    /// A size probe response carried no parseable total size.
    SizeProbe,
    /// A registry registration found the task already live.
    AlreadyRunning,
    /// The record or task asked for does not exist.
    NotFound,
    /// The external muxer failed to combine the two streams.
    Merge,
    /// The target path could not be created or written.
    Filesystem,
    /// A record's size fields are inconsistent and cannot be persisted.
    InvalidRecord,
}

impl DownloadError {
    /// A short description, for callers that log or display errors.
    pub fn describe(self) -> (r: &'static str) {
        match self {
            DownloadError::Network => "network request failed",
            DownloadError::SizeProbe => "could not determine remote size",
            DownloadError::AlreadyRunning => "task already existed",
            DownloadError::NotFound => "task didn't exist",
            DownloadError::Merge => "failed to merge video and audio file",
            DownloadError::Filesystem => "could not write the target file",
            DownloadError::InvalidRecord => "record sizes are inconsistent",
        }
    }
}

} // verus!
